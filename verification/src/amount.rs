//! The texts that stand for an amount of money: which strings are decimal
//! numbers. The number itself is worked out by the caller from the text.

use vstd::prelude::*;
use crate::text::{all_digits, chars_of, digit_run, is_digit, lemma_digit_run};

verus! {

/// Whether `c` is a plus or a minus sign.
pub open spec fn is_sign(c: char) -> bool {
    c == '+' || c == '-'
}

/// Whether `c` is the character `l` or the capital letter that belongs to
/// the small letter `l`.
pub open spec fn is_letter(c: char, l: char) -> bool {
    c == l || ('A' <= c && c <= 'Z' && c as int + 32 == l as int)
}

/// Whether `s` is `word` but for the case of its letters; `word` is in lower
/// case.
pub open spec fn spells(s: Seq<char>, word: Seq<char>) -> bool {
    &&& s.len() == word.len()
    &&& forall|i: int| 0 <= i < s.len() ==> is_letter(#[trigger] s[i], word[i])
}

/// Whether `s` names an infinity or a value that is no number.
pub open spec fn is_special(s: Seq<char>) -> bool {
    spells(s, "inf"@) || spells(s, "infinity"@) || spells(s, "nan"@)
}

/// Whether `s` is an exponent: the letter `e` in either case, at most one
/// sign, then one or more digits.
pub open spec fn is_exponent(s: Seq<char>) -> bool {
    &&& s.len() > 0
    &&& (s[0] == 'e' || s[0] == 'E')
    &&& {
        let digits = if s.len() > 1 && is_sign(s[1]) {
            s.skip(2)
        } else {
            s.skip(1)
        };
        digits.len() > 0 && all_digits(digits)
    }
}

/// Whether `s` is a number without a sign: digits, which a single point may
/// part or begin or end, with at least one digit in all, and an exponent or
/// nothing behind them.
pub open spec fn is_number(s: Seq<char>) -> bool {
    let whole = digit_run(s);
    let rest = s.skip(whole as int);
    if rest.len() > 0 && rest[0] == '.' {
        let fraction = digit_run(rest.skip(1));
        let tail = rest.skip(1 + fraction as int);
        whole + fraction > 0 && (tail.len() == 0 || is_exponent(tail))
    } else {
        whole > 0 && (rest.len() == 0 || is_exponent(rest))
    }
}

/// Whether `s` is the text of a decimal number: at most one sign, then a
/// number or one of the special names.
pub open spec fn is_decimal_text(s: Seq<char>) -> bool {
    let body = if s.len() > 0 && is_sign(s[0]) {
        s.skip(1)
    } else {
        s
    };
    is_special(body) || is_number(body)
}

/// The place behind the digits that start at `from`.
fn skip_digits(cs: &Vec<char>, from: usize) -> (to: usize)
    requires
        from <= cs.len(),
    ensures
        from <= to <= cs.len(),
        to - from == digit_run(cs@.skip(from as int)),
{
    let mut i: usize = from;
    while i < cs.len() && cs[i] >= '0' && cs[i] <= '9'
        invariant
            from <= i <= cs.len(),
            digit_run(cs@.skip(from as int)) == (i - from) + digit_run(cs@.skip(i as int)),
        decreases cs.len() - i,
    {
        assert(cs@.skip(i as int)[0] == cs@[i as int]);
        assert(cs@.skip(i as int).skip(1) =~= cs@.skip(i + 1));
        i = i + 1;
    }
    proof {
        if i < cs.len() {
            assert(cs@.skip(i as int)[0] == cs@[i as int]);
        }
    }
    i
}

/// Whether the characters from `from` on spell `word`.
fn spells_word(cs: &Vec<char>, from: usize, word: &str) -> (ok: bool)
    requires
        from <= cs.len(),
    ensures
        ok == spells(cs@.skip(from as int), word@),
{
    let w = chars_of(word);
    if cs.len() - from != w.len() {
        return false;
    }
    let ghost s = cs@.skip(from as int);
    let mut i: usize = 0;
    while i < w.len()
        invariant
            i <= w.len(),
            w@ == word@,
            from + w.len() == cs.len(),
            s == cs@.skip(from as int),
            forall|j: int| 0 <= j < i ==> is_letter(#[trigger] s[j], w@[j]),
        decreases w.len() - i,
    {
        let c = cs[from + i];
        let l = w[i];
        assert(s[i as int] == c);
        let same = c == l || (c >= 'A' && c <= 'Z' && l >= 'a' && l <= 'z' && c as u32 + 32
            == l as u32);
        if !same {
            return false;
        }
        i = i + 1;
    }
    true
}

/// Whether the characters from `from` on are an exponent.
fn exponent(cs: &Vec<char>, from: usize) -> (ok: bool)
    requires
        from < cs.len(),
    ensures
        ok == is_exponent(cs@.skip(from as int)),
{
    let ghost s = cs@.skip(from as int);
    assert(s[0] == cs@[from as int]);
    if !(cs[from] == 'e' || cs[from] == 'E') {
        return false;
    }
    let mut p: usize = from + 1;
    if p < cs.len() && (cs[p] == '+' || cs[p] == '-') {
        assert(s[1] == cs@[p as int]);
        p = p + 1;
        assert(s.skip(2) =~= cs@.skip(p as int));
    } else {
        proof {
            if p < cs.len() {
                assert(s[1] == cs@[p as int]);
            }
        }
        assert(s.skip(1) =~= cs@.skip(p as int));
    }
    if p == cs.len() {
        return false;
    }
    let end = skip_digits(cs, p);
    proof {
        lemma_digit_run(cs@.skip(p as int));
    }
    end == cs.len()
}

/// Whether the characters from `from` on are a number without a sign.
fn number(cs: &Vec<char>, from: usize) -> (ok: bool)
    requires
        from <= cs.len(),
    ensures
        ok == is_number(cs@.skip(from as int)),
{
    let ghost s = cs@.skip(from as int);
    let whole_end = skip_digits(cs, from);
    let ghost rest = s.skip(whole_end - from);
    assert(rest =~= cs@.skip(whole_end as int));
    let mut pos: usize = whole_end;
    let mut count: usize = whole_end - from;
    if pos < cs.len() && cs[pos] == '.' {
        assert(rest[0] == '.');
        let fraction_end = skip_digits(cs, pos + 1);
        assert(rest.skip(1) =~= cs@.skip(pos + 1));
        assert(rest.skip(1 + (fraction_end - (pos + 1))) =~= cs@.skip(fraction_end as int));
        count = count + (fraction_end - (pos + 1));
        pos = fraction_end;
    } else {
        proof {
            if pos < cs.len() {
                assert(rest[0] == cs@[pos as int]);
            }
        }
    }
    if count == 0 {
        return false;
    }
    if pos == cs.len() {
        return true;
    }
    exponent(cs, pos)
}

/// Whether `s` is the text of a decimal number.
pub fn is_decimal(s: &str) -> (ok: bool)
    ensures
        ok == is_decimal_text(s@),
{
    let cs = chars_of(s);
    let start: usize = if cs.len() > 0 && (cs[0] == '+' || cs[0] == '-') {
        1
    } else {
        0
    };
    assert(cs@.skip(0) =~= cs@);
    if spells_word(&cs, start, "inf") || spells_word(&cs, start, "infinity") || spells_word(
        &cs,
        start,
        "nan",
    ) {
        return true;
    }
    number(&cs, start)
}

} // verus!
