//! IPv4 addresses in dotted decimal form.

use vstd::prelude::*;
use crate::text::{
    all_digits, chars_of, decimal, digit_char, digit_run, digit_value, digits_value, is_digit,
    lemma_decimal_reads_back, lemma_digit_run, lemma_digits_value_grows, push_decimal,
};

verus! {

/// An IPv4 address, octet by octet from the left.
#[derive(Debug, Clone, Copy, PartialEq, Eq, Structural)]
pub struct Ipv4 {
    pub a: u8,
    pub b: u8,
    pub c: u8,
    pub d: u8,
}

/// The text was no IPv4 address in dotted decimal form.
#[derive(Debug, Clone, Copy, PartialEq, Eq, Structural)]
pub struct AddrParseError;

/// The octet that `t` denotes: one to three digits, without a zero before
/// another digit, whose value is at most 255.
pub open spec fn octet_of(t: Seq<char>) -> Option<u8> {
    if 1 <= t.len() <= 3 && all_digits(t) && (t.len() == 1 || t[0] != '0') && digits_value(t)
        <= 255 {
        Some(digits_value(t) as u8)
    } else {
        None
    }
}

/// The `count` octets that `s` denotes: each is the run of digits up to the
/// next point or the end, a single point stands between two of them, and
/// nothing is left over.
pub open spec fn octets_of(s: Seq<char>, count: nat) -> Option<Seq<u8>>
    decreases count,
{
    if count == 0 {
        None
    } else {
        let n = digit_run(s) as int;
        match octet_of(s.take(n)) {
            None => None,
            Some(o) => if count == 1 {
                if n == s.len() {
                    Some(seq![o])
                } else {
                    None
                }
            } else if n < s.len() && s[n] == '.' {
                match octets_of(s.skip(n + 1), (count - 1) as nat) {
                    Some(rest) => Some(seq![o] + rest),
                    None => None,
                }
            } else {
                None
            },
        }
    }
}

/// The address that `s` denotes in dotted decimal form.
pub open spec fn ipv4_of(s: Seq<char>) -> Option<Ipv4> {
    match octets_of(s, 4) {
        Some(o) => Some(Ipv4 { a: o[0], b: o[1], c: o[2], d: o[3] }),
        None => None,
    }
}

/// Reads the octet that starts at `from`; gives it with the place behind
/// its digits.
fn octet_at(cs: &Vec<char>, from: usize) -> (r: Option<(u8, usize)>)
    requires
        from <= cs.len(),
    ensures
        match r {
            Some((o, to)) => {
                &&& to - from == digit_run(cs@.skip(from as int))
                &&& from < to <= cs.len()
                &&& octet_of(cs@.skip(from as int).take(to - from)) == Some(o)
            },
            None => octet_of(
                cs@.skip(from as int).take(digit_run(cs@.skip(from as int)) as int),
            ) is None,
        },
{
    let ghost s = cs@.skip(from as int);
    proof {
        lemma_digit_run(s);
    }
    let ghost n = digit_run(s) as int;
    let ghost t = s.take(n);
    let mut i: usize = from;
    let mut value: u32 = 0;
    assert(t.take(0) =~= Seq::<char>::empty());
    while i < cs.len() && i - from < 3 && cs[i] >= '0' && cs[i] <= '9'
        invariant
            from <= i <= cs.len(),
            s == cs@.skip(from as int),
            n == digit_run(s),
            t == s.take(n),
            n <= s.len(),
            n < s.len() ==> !is_digit(s[n]),
            i - from <= n,
            i - from <= 3,
            value == digits_value(t.take(i - from)),
            i - from == 0 ==> value == 0,
            i - from == 1 ==> value <= 9,
            i - from == 2 ==> value <= 99,
            i - from == 3 ==> value <= 999,
        decreases cs.len() - i,
    {
        let ghost k = i - from;
        let c = cs[i];
        assert(s[k] == c);
        proof {
            if k == n {
                assert(false);
            }
            assert(t.take(k + 1).drop_last() =~= t.take(k));
            assert(t.take(k + 1).last() == c);
        }
        value = value * 10 + (c as u32 - 48);
        i = i + 1;
    }
    let len = i - from;
    if i < cs.len() && cs[i] >= '0' && cs[i] <= '9' {
        proof {
            assert(s[len as int] == cs@[i as int]);
            assert(len == 3);
            assert(n > 3);
        }
        return None;
    }
    proof {
        if i < cs.len() {
            assert(s[len as int] == cs@[i as int]);
        }
        if len < n {
            assert(is_digit(s[len as int]));
        }
        assert(len == n);
        assert(t.take(n) =~= t);
    }
    if len == 0 {
        return None;
    }
    if len > 1 && cs[from] == '0' {
        assert(t[0] == cs@[from as int]);
        return None;
    }
    proof {
        assert(t[0] == cs@[from as int]);
        assert forall|j: int| 0 <= j < t.len() implies is_digit(#[trigger] t[j]) by {
            assert(t[j] == s[j]);
        }
    }
    if value > 255 {
        return None;
    }
    Some((value as u8, i))
}

/// Reads an IPv4 address in dotted decimal form: four octets with a point
/// between them, each of one to three digits and at most 255, none with a
/// zero before another digit.
pub fn parse_ipv4(s: &str) -> (r: Result<Ipv4, AddrParseError>)
    ensures
        match r {
            Ok(ip) => ipv4_of(s@) == Some(ip),
            Err(_) => ipv4_of(s@) is None,
        },
{
    let cs = chars_of(s);
    assert(cs@.skip(0) =~= s@);
    reveal_with_fuel(octets_of, 5);
    let (a, end_a) = match octet_at(&cs, 0) {
        Some(x) => x,
        None => {
            return Err(AddrParseError);
        },
    };
    if !(end_a < cs.len() && cs[end_a] == '.') {
        return Err(AddrParseError);
    }
    let ghost s1 = cs@.skip(end_a + 1);
    assert(s@.skip(end_a + 1) =~= s1);
    let (b, end_b) = match octet_at(&cs, end_a + 1) {
        Some(x) => x,
        None => {
            return Err(AddrParseError);
        },
    };
    if !(end_b < cs.len() && cs[end_b] == '.') {
        proof {
            if end_b < cs.len() {
                assert(s1[end_b - (end_a + 1)] == cs@[end_b as int]);
            }
        }
        return Err(AddrParseError);
    }
    assert(s1[end_b - (end_a + 1)] == cs@[end_b as int]);
    let ghost s2 = cs@.skip(end_b + 1);
    assert(s1.skip(end_b - (end_a + 1) + 1) =~= s2);
    let (c, end_c) = match octet_at(&cs, end_b + 1) {
        Some(x) => x,
        None => {
            return Err(AddrParseError);
        },
    };
    if !(end_c < cs.len() && cs[end_c] == '.') {
        proof {
            if end_c < cs.len() {
                assert(s2[end_c - (end_b + 1)] == cs@[end_c as int]);
            }
        }
        return Err(AddrParseError);
    }
    assert(s2[end_c - (end_b + 1)] == cs@[end_c as int]);
    let ghost s3 = cs@.skip(end_c + 1);
    assert(s2.skip(end_c - (end_b + 1) + 1) =~= s3);
    let (d, end_d) = match octet_at(&cs, end_c + 1) {
        Some(x) => x,
        None => {
            return Err(AddrParseError);
        },
    };
    if end_d != cs.len() {
        return Err(AddrParseError);
    }
    let ghost o = seq![a] + (seq![b] + (seq![c] + seq![d]));
    assert(octets_of(s3, 1) == Some(seq![d]));
    assert(octets_of(s2, 2) == Some(seq![c] + seq![d]));
    assert(octets_of(s1, 3) == Some(seq![b] + (seq![c] + seq![d])));
    assert(octets_of(s@, 4) == Some(o));
    Ok(Ipv4 { a, b, c, d })
}

/// The dotted decimal form of an address: its four octets in base 10, with
/// a point between them.
pub open spec fn dotted(ip: Ipv4) -> Seq<char> {
    decimal(ip.a as nat) + seq!['.'] + decimal(ip.b as nat) + seq!['.'] + decimal(ip.c as nat)
        + seq!['.'] + decimal(ip.d as nat)
}

impl Ipv4 {
    /// Writes the address in dotted decimal form.
    pub fn to_string(&self) -> (s: String)
        ensures
            s@ == dotted(*self),
    {
        let mut s = String::new();
        push_decimal(&mut s, self.a as u64);
        s.push('.');
        push_decimal(&mut s, self.b as u64);
        s.push('.');
        push_decimal(&mut s, self.c as u64);
        s.push('.');
        push_decimal(&mut s, self.d as u64);
        assert(s@ =~= dotted(*self));
        s
    }
}

/// A number from 1 up is written without a zero at its start, and a number
/// below a thousand with at most three digits.
proof fn lemma_decimal_shape(n: nat)
    ensures
        n >= 1 ==> decimal(n)[0] != '0',
        n < 10 ==> decimal(n).len() == 1,
        n < 1000 ==> decimal(n).len() <= 3,
    decreases n,
{
    if n >= 10 {
        lemma_decimal_shape(n / 10);
        lemma_decimal_reads_back(n / 10);
        if n < 1000 {
            lemma_decimal_shape(n / 10 / 10);
            assert(decimal(n / 10).len() <= 2);
        }
        assert(decimal(n)[0] == decimal(n / 10)[0]);
    }
}

/// What an octet is written as is read as that octet.
proof fn lemma_octet_of_decimal(o: u8)
    ensures
        octet_of(decimal(o as nat)) == Some(o),
{
    lemma_decimal_shape(o as nat);
    lemma_decimal_reads_back(o as nat);
}

/// Digits that are read as an octet are what the octet is written as.
proof fn lemma_decimal_of_digits(t: Seq<char>)
    requires
        t.len() >= 1,
        all_digits(t),
        t.len() == 1 || t[0] != '0',
    ensures
        decimal(digits_value(t)) == t,
    decreases t.len(),
{
    let head = t.drop_last();
    let d = digit_value(t.last());
    assert(is_digit(t[t.len() - 1]));
    if t.len() == 1 {
        assert(head.len() == 0);
        assert(digits_value(head) == 0);
        assert(digits_value(t) == d);
        assert(digit_char(d) == t[0]);
        assert(decimal(d) =~= t);
    } else {
        assert forall|i: int| 0 <= i < head.len() implies is_digit(#[trigger] head[i]) by {
            assert(head[i] == t[i]);
        }
        assert(head[0] == t[0]);
        lemma_decimal_of_digits(head);
        lemma_digits_value_grows(head, 1);
        assert(head.take(1).drop_last().len() == 0);
        assert(digits_value(head.take(1)) == digit_value(head[0])) by {
            assert(head.take(1).last() == head[0]);
            assert(digits_value(head.take(1).drop_last()) == 0);
        }
        assert(is_digit(t[0]));
        assert(digits_value(head) >= 1);
        let n = digits_value(t);
        assert(n == digits_value(head) * 10 + d);
        assert(n / 10 == digits_value(head) && n % 10 == d);
        assert(digit_char(d) == t.last());
        assert(decimal(n) =~= t);
    }
}

/// Digits with no digit behind them are a run of digits of their own.
proof fn lemma_digit_run_of_prefix(t: Seq<char>, rest: Seq<char>)
    requires
        all_digits(t),
        rest.len() == 0 || !is_digit(rest[0]),
    ensures
        digit_run(t + rest) == t.len(),
    decreases t.len(),
{
    let s = t + rest;
    if t.len() == 0 {
        assert(s =~= rest);
    } else {
        assert(s[0] == t[0]);
        assert(is_digit(t[0]));
        let tail = t.skip(1);
        assert forall|i: int| 0 <= i < tail.len() implies is_digit(#[trigger] tail[i]) by {
            assert(tail[i] == t[i + 1]);
        }
        lemma_digit_run_of_prefix(tail, rest);
        assert(s.skip(1) =~= tail + rest);
    }
}

/// Octets written in base 10 with a point between them.
pub open spec fn joined(o: Seq<u8>) -> Seq<char>
    decreases o.len(),
{
    if o.len() == 0 {
        Seq::empty()
    } else if o.len() == 1 {
        decimal(o[0] as nat)
    } else {
        decimal(o[0] as nat) + seq!['.'] + joined(o.skip(1))
    }
}

/// The octets that are read from octets written with points between them
/// are those octets.
pub proof fn lemma_joined_is_read(o: Seq<u8>)
    requires
        o.len() >= 1,
    ensures
        octets_of(joined(o), o.len()) == Some(o),
    decreases o.len(),
{
    let t = decimal(o[0] as nat);
    lemma_octet_of_decimal(o[0]);
    let s = joined(o);
    if o.len() == 1 {
        lemma_digit_run_of_prefix(t, Seq::empty());
        assert(t + Seq::<char>::empty() =~= t);
        assert(s.take(t.len() as int) =~= t);
        assert(seq![o[0]] =~= o);
    } else {
        let r = o.skip(1);
        lemma_joined_is_read(r);
        let rest = joined(r);
        let dot = seq!['.'];
        lemma_digit_run_of_prefix(t, dot + rest);
        assert(t + (dot + rest) =~= s);
        assert(s.take(t.len() as int) =~= t);
        assert(s[t.len() as int] == '.');
        assert(s.skip(t.len() as int + 1) =~= rest);
        assert(seq![o[0]] + r =~= o);
    }
}

/// A text from which octets are read is those octets written with points
/// between them.
pub proof fn lemma_read_is_joined(s: Seq<char>, count: nat)
    requires
        octets_of(s, count) is Some,
    ensures
        octets_of(s, count)->Some_0.len() == count,
        s == joined(octets_of(s, count)->Some_0),
    decreases count,
{
    let o = octets_of(s, count)->Some_0;
    let n = digit_run(s) as int;
    lemma_digit_run(s);
    let t = s.take(n);
    let x = octet_of(t)->Some_0;
    lemma_decimal_of_digits(t);
    assert(decimal(x as nat) == t);
    if count == 1 {
        assert(s =~= t);
        assert(o == seq![x]);
    } else {
        let rest = s.skip(n + 1);
        lemma_read_is_joined(rest, (count - 1) as nat);
        let r = octets_of(rest, (count - 1) as nat)->Some_0;
        assert(o == seq![x] + r);
        assert(o.skip(1) =~= r);
        assert(s =~= t + seq!['.'] + rest);
    }
}

/// The dotted decimal form of an address is its four octets written with
/// points between them.
proof fn lemma_dotted_is_joined(ip: Ipv4)
    ensures
        dotted(ip) == joined(seq![ip.a, ip.b, ip.c, ip.d]),
{
    let o = seq![ip.a, ip.b, ip.c, ip.d];
    let o1 = seq![ip.b, ip.c, ip.d];
    let o2 = seq![ip.c, ip.d];
    let o3 = seq![ip.d];
    assert(o.skip(1) =~= o1);
    assert(o1.skip(1) =~= o2);
    assert(o2.skip(1) =~= o3);
    assert(joined(o3) == decimal(ip.d as nat));
    assert(joined(o2) == decimal(ip.c as nat) + seq!['.'] + joined(o3));
    assert(joined(o1) == decimal(ip.b as nat) + seq!['.'] + joined(o2));
    assert(joined(o) == decimal(ip.a as nat) + seq!['.'] + joined(o1));
    assert(dotted(ip) =~= joined(o));
}

/// The address that is read from the dotted decimal form of an address is
/// that address.
pub proof fn lemma_dotted_round_trip(ip: Ipv4)
    ensures
        ipv4_of(dotted(ip)) == Some(ip),
{
    lemma_dotted_is_joined(ip);
    lemma_joined_is_read(seq![ip.a, ip.b, ip.c, ip.d]);
}

/// A text from which an address is read is the dotted decimal form of that
/// address: each address has one text, and no other text is read.
pub proof fn lemma_read_is_dotted(s: Seq<char>, ip: Ipv4)
    requires
        ipv4_of(s) == Some(ip),
    ensures
        s == dotted(ip),
{
    lemma_read_is_joined(s, 4);
    let o = octets_of(s, 4)->Some_0;
    assert(o =~= seq![ip.a, ip.b, ip.c, ip.d]);
    lemma_dotted_is_joined(ip);
}

} // verus!
