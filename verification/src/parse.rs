//! The field normalizers: each turns one oddly encoded wire value into the
//! value it stands for, or says why it cannot.

use vstd::prelude::*;
use crate::amount::{is_decimal, is_decimal_text, is_number};
use crate::json::{find, lemma_array_view, lemma_object_view, member, members_view, Json, Number, Value};
use crate::table::Table;
use crate::text::{
    all_digits, digit_value, digits_value, is_digit, lemma_digit_run, parse_u64, str_eq,
    strip_commas, ungroup, unsigned_of,
};
use crate::{Coupon, CouponView};

verus! {

/// Why a wire value could not be read.
#[derive(Debug)]
pub enum ParseError {
    /// The value is of another JSON type than the field takes.
    InvalidType,
    /// An object lacks a member that is needed; holds the member's name.
    MissingField(String),
    /// A string that is no base-10 unsigned integer; holds the string.
    InvalidInteger(String),
    /// A string that, its commas taken out, is no decimal number; holds the
    /// string as it came.
    InvalidAmount(String),
    /// A string that is none of the tokens that the field knows; holds the
    /// string.
    InvalidValue(String),
    /// A list that holds items where a mapping was expected.
    NonEmptyList,
}

/// The mathematical view of a [`ParseError`].
pub enum Fault {
    InvalidType,
    MissingField(Seq<char>),
    InvalidInteger(Seq<char>),
    InvalidAmount(Seq<char>),
    InvalidValue(Seq<char>),
    NonEmptyList,
}

impl View for ParseError {
    type V = Fault;

    open spec fn view(&self) -> Fault {
        match self {
            ParseError::InvalidType => Fault::InvalidType,
            ParseError::MissingField(s) => Fault::MissingField(s@),
            ParseError::InvalidInteger(s) => Fault::InvalidInteger(s@),
            ParseError::InvalidAmount(s) => Fault::InvalidAmount(s@),
            ParseError::InvalidValue(s) => Fault::InvalidValue(s@),
            ParseError::NonEmptyList => Fault::NonEmptyList,
        }
    }
}

impl Fault {
    /// The words that describe the fault, with the offending text in them.
    pub open spec fn describe(self) -> Seq<char> {
        match self {
            Fault::InvalidType => "Invalid type"@,
            Fault::MissingField(s) => "Missing field: "@ + s,
            Fault::InvalidInteger(s) => "Parse Error: "@ + s,
            Fault::InvalidAmount(s) => "Can not parse a number from "@ + s,
            Fault::InvalidValue(s) => "Invalid value: "@ + s,
            Fault::NonEmptyList => "Could not parse coupons field, found non-empty list"@,
        }
    }
}

impl ParseError {
    /// A description of the error for a reader.
    pub fn message(&self) -> (text: String)
        ensures
            text@ == self@.describe(),
    {
        match self {
            ParseError::InvalidType => "Invalid type".to_owned(),
            ParseError::MissingField(s) => "Missing field: ".to_owned().concat(s.as_str()),
            ParseError::InvalidInteger(s) => "Parse Error: ".to_owned().concat(s.as_str()),
            ParseError::InvalidAmount(s) => "Can not parse a number from ".to_owned().concat(
                s.as_str(),
            ),
            ParseError::InvalidValue(s) => "Invalid value: ".to_owned().concat(s.as_str()),
            ParseError::NonEmptyList => "Could not parse coupons field, found non-empty list".to_owned(),
        }
    }
}

/// The outcome of a decoder with the error taken by its view.
pub open spec fn outcome<T>(r: Result<T, ParseError>) -> Result<T, Fault> {
    match r {
        Ok(t) => Ok(t),
        Err(e) => Err(e@),
    }
}

/// The outcome of a decoder with both the value and the error taken by
/// their views.
pub open spec fn outcome_view<T: View>(r: Result<T, ParseError>) -> Result<T::V, Fault> {
    match r {
        Ok(t) => Ok(t@),
        Err(e) => Err(e@),
    }
}

/// What the yes/no token `j` says: `"yes"` is true and `"no"` is false, in
/// exactly this spelling.
pub open spec fn yn_of(j: Json) -> Result<bool, Fault> {
    match j {
        Json::String(s) => if s == "yes"@ {
            Ok(true)
        } else if s == "no"@ {
            Ok(false)
        } else {
            Err(Fault::InvalidValue(s))
        },
        _ => Err(Fault::InvalidType),
    }
}

/// Reads a yes/no token.
pub fn yn(v: &Value) -> (r: Result<bool, ParseError>)
    ensures
        outcome(r) == yn_of(v@),
{
    match v {
        Value::String(s) => {
            if str_eq(s.as_str(), "yes") {
                Ok(true)
            } else if str_eq(s.as_str(), "no") {
                Ok(false)
            } else {
                Err(ParseError::InvalidValue(s.clone()))
            }
        },
        _ => Err(ParseError::InvalidType),
    }
}

/// The text of the amount that `j` holds: the string without its commas,
/// where that is a decimal number.
pub open spec fn money_of(j: Json) -> Result<Seq<char>, Fault> {
    match j {
        Json::String(s) => if is_decimal_text(ungroup(s)) {
            Ok(ungroup(s))
        } else {
            Err(Fault::InvalidAmount(s))
        },
        _ => Err(Fault::InvalidType),
    }
}

/// Reads an amount written with commas between its digits. The commas are
/// taken out wherever they stand; what is left must be a decimal number, and
/// is handed back as text.
pub fn money(v: &Value) -> (r: Result<String, ParseError>)
    ensures
        outcome_view(r) == money_of(v@),
{
    match v {
        Value::String(s) => {
            let plain = strip_commas(s.as_str());
            if is_decimal(plain.as_str()) {
                Ok(plain)
            } else {
                Err(ParseError::InvalidAmount(s.clone()))
            }
        },
        _ => Err(ParseError::InvalidType),
    }
}

/// Whether `s` is made of digits and commas only.
pub open spec fn is_grouped_digits(s: Seq<char>) -> bool {
    forall|i: int| 0 <= i < s.len() ==> is_digit(#[trigger] s[i]) || s[i] == ','
}

/// The number that the digits of `s` denote in base 10 when its commas are
/// passed over.
pub open spec fn grouped_value(s: Seq<char>) -> nat
    decreases s.len(),
{
    if s.len() == 0 {
        0
    } else if s.last() == ',' {
        grouped_value(s.drop_last())
    } else {
        grouped_value(s.drop_last()) * 10 + digit_value(s.last())
    }
}

/// Taking the commas out of digits and commas leaves the digits, which
/// denote what they denoted between the commas.
pub proof fn lemma_ungroup_digits(s: Seq<char>)
    requires
        is_grouped_digits(s),
    ensures
        all_digits(ungroup(s)),
        digits_value(ungroup(s)) == grouped_value(s),
        ungroup(s).len() > 0 <==> exists|i: int| 0 <= i < s.len() && is_digit(#[trigger] s[i]),
    decreases s.len(),
{
    reveal(Seq::filter);
    if s.len() > 0 {
        let head = s.drop_last();
        assert(is_grouped_digits(head)) by {
            assert forall|i: int| 0 <= i < head.len() implies is_digit(#[trigger] head[i])
                || head[i] == ',' by {
                assert(head[i] == s[i]);
            }
        }
        lemma_ungroup_digits(head);
        let c = s.last();
        assert(is_digit(s[s.len() - 1]) || s[s.len() - 1] == ',');
        if c == ',' {
            assert(ungroup(s) == ungroup(head));
            if exists|i: int| 0 <= i < s.len() && is_digit(#[trigger] s[i]) {
                let i = choose|i: int| 0 <= i < s.len() && is_digit(#[trigger] s[i]);
                assert(is_digit(head[i]));
            }
            if exists|i: int| 0 <= i < head.len() && is_digit(#[trigger] head[i]) {
                let i = choose|i: int| 0 <= i < head.len() && is_digit(#[trigger] head[i]);
                assert(is_digit(s[i]));
            }
        } else {
            let t = ungroup(s);
            assert(t == ungroup(head).push(c));
            assert(t.drop_last() =~= ungroup(head));
            assert(t.last() == c);
            assert forall|i: int| 0 <= i < t.len() implies is_digit(#[trigger] t[i]) by {
                if i < t.len() - 1 {
                    assert(t[i] == ungroup(head)[i]);
                }
            }
            assert(is_digit(s[s.len() - 1]));
        }
    }
}

/// A string of digits and commas with at least one digit is an amount: the
/// commas are taken out, the digits stay as they are, and they denote the
/// number that they denoted between the commas.
pub proof fn lemma_money_of_grouped_digits(s: Seq<char>)
    requires
        is_grouped_digits(s),
        exists|i: int| 0 <= i < s.len() && is_digit(#[trigger] s[i]),
    ensures
        money_of(Json::String(s)) == Ok::<Seq<char>, Fault>(ungroup(s)),
        all_digits(ungroup(s)),
        digits_value(ungroup(s)) == grouped_value(s),
{
    lemma_ungroup_digits(s);
    let t = ungroup(s);
    lemma_digit_run(t);
    assert(is_digit(t[0]));
    assert(t.skip(t.len() as int).len() == 0);
    assert(is_number(t));
}

/// A yes/no token is read exactly when it is `"yes"` or `"no"`, and then as
/// true and false.
pub proof fn lemma_yn_exactly(s: Seq<char>)
    ensures
        s == "yes"@ ==> yn_of(Json::String(s)) == Ok::<bool, Fault>(true),
        s == "no"@ ==> yn_of(Json::String(s)) == Ok::<bool, Fault>(false),
        s != "yes"@ && s != "no"@ ==> yn_of(Json::String(s)) is Err,
{
    reveal_strlit("yes");
    reveal_strlit("no");
    assert("yes"@.len() == 3 && "no"@.len() == 2);
}

/// The number that the string `j` holds in base 10.
pub open spec fn strnum_of(j: Json) -> Result<u64, Fault> {
    match j {
        Json::String(s) => match unsigned_of(s) {
            Some(n) => Ok(n),
            None => Err(Fault::InvalidInteger(s)),
        },
        _ => Err(Fault::InvalidType),
    }
}

/// Reads an unsigned integer that travels as a string.
pub fn strnum(v: &Value) -> (r: Result<u64, ParseError>)
    ensures
        outcome(r) == strnum_of(v@),
{
    match v {
        Value::String(s) => match parse_u64(s.as_str()) {
            Some(n) => Ok(n),
            None => Err(ParseError::InvalidInteger(s.clone())),
        },
        _ => Err(ParseError::InvalidType),
    }
}

/// The number that `j` holds if it is a string, and nothing if it is null.
pub open spec fn opt_strnum_of(j: Json) -> Result<Option<u64>, Fault> {
    match j {
        Json::Null => Ok(None),
        _ => match strnum_of(j) {
            Ok(n) => Ok(Some(n)),
            Err(f) => Err(f),
        },
    }
}

/// Reads an unsigned integer that travels as a string or is left out.
pub fn opt_strnum(v: &Value) -> (r: Result<Option<u64>, ParseError>)
    ensures
        outcome(r) == opt_strnum_of(v@),
{
    match v {
        Value::Null => Ok(None),
        _ => match strnum(v) {
            Ok(n) => Ok(Some(n)),
            Err(e) => Err(e),
        },
    }
}

/// The member `name` of an object, which must be there.
pub open spec fn field_of(members: Seq<(Seq<char>, Json)>, name: Seq<char>) -> Result<Json, Fault> {
    match member(members, name) {
        Some(j) => Ok(j),
        None => Err(Fault::MissingField(name)),
    }
}

/// The member `name` of an object, or null where the object has none.
pub open spec fn optional_of(members: Seq<(Seq<char>, Json)>, name: Seq<char>) -> Json {
    match member(members, name) {
        Some(j) => j,
        None => Json::Null,
    }
}

/// The string that `j` is.
pub open spec fn text_of(j: Json) -> Result<Seq<char>, Fault> {
    match j {
        Json::String(s) => Ok(s),
        _ => Err(Fault::InvalidType),
    }
}

/// The string that `j` is, or nothing where it is null.
pub open spec fn opt_text_of(j: Json) -> Result<Option<Seq<char>>, Fault> {
    match j {
        Json::Null => Ok(None),
        Json::String(s) => Ok(Some(s)),
        _ => Err(Fault::InvalidType),
    }
}

/// The unsigned integer that the JSON number `j` is.
pub open spec fn unsigned_number_of(j: Json) -> Result<u64, Fault> {
    match j {
        Json::Number(Number::Unsigned(n)) => Ok(n),
        _ => Err(Fault::InvalidType),
    }
}

/// Finds a member that must be there.
pub fn field<'a>(members: &'a Vec<(String, Value)>, name: &str) -> (r: Result<
    &'a Value,
    ParseError,
>)
    ensures
        match r {
            Ok(v) => field_of(members_view(members@), name@) == Ok::<Json, Fault>(v@),
            Err(e) => field_of(members_view(members@), name@) == Err::<Json, Fault>(e@),
        },
{
    match find(members, name) {
        Some(v) => Ok(v),
        None => Err(ParseError::MissingField(name.to_owned())),
    }
}

/// Reads a string.
pub fn text(v: &Value) -> (r: Result<String, ParseError>)
    ensures
        outcome_view(r) == text_of(v@),
{
    match v {
        Value::String(s) => Ok(s.clone()),
        _ => Err(ParseError::InvalidType),
    }
}

/// Reads a string that may be left out.
pub fn opt_text(v: &Value) -> (r: Result<Option<String>, ParseError>)
    ensures
        match r {
            Ok(Some(s)) => opt_text_of(v@) == Ok::<Option<Seq<char>>, Fault>(Some(s@)),
            Ok(None) => opt_text_of(v@) == Ok::<Option<Seq<char>>, Fault>(None),
            Err(e) => opt_text_of(v@) == Err::<Option<Seq<char>>, Fault>(e@),
        },
{
    match v {
        Value::Null => Ok(None),
        Value::String(s) => Ok(Some(s.clone())),
        _ => Err(ParseError::InvalidType),
    }
}

/// Reads an unsigned integer that travels as a JSON number.
pub fn unsigned_number(v: &Value) -> (r: Result<u64, ParseError>)
    ensures
        outcome(r) == unsigned_number_of(v@),
{
    match v {
        Value::Number(Number::Unsigned(n)) => Ok(*n),
        _ => Err(ParseError::InvalidType),
    }
}

/// The string under the member `name`, which must be there.
pub open spec fn text_field_of(members: Seq<(Seq<char>, Json)>, name: Seq<char>) -> Result<
    Seq<char>,
    Fault,
> {
    match field_of(members, name) {
        Ok(j) => text_of(j),
        Err(f) => Err(f),
    }
}

/// The JSON number under the member `name`, which must be there.
pub open spec fn number_field_of(members: Seq<(Seq<char>, Json)>, name: Seq<char>) -> Result<
    u64,
    Fault,
> {
    match field_of(members, name) {
        Ok(j) => unsigned_number_of(j),
        Err(f) => Err(f),
    }
}

/// The number in the string under the member `name`, which must be there.
pub open spec fn strnum_field_of(members: Seq<(Seq<char>, Json)>, name: Seq<char>) -> Result<
    u64,
    Fault,
> {
    match field_of(members, name) {
        Ok(j) => strnum_of(j),
        Err(f) => Err(f),
    }
}

/// The yes/no token under the member `name`, which must be there.
pub open spec fn yn_field_of(members: Seq<(Seq<char>, Json)>, name: Seq<char>) -> Result<
    bool,
    Fault,
> {
    match field_of(members, name) {
        Ok(j) => yn_of(j),
        Err(f) => Err(f),
    }
}

/// The amount under the member `name`, which must be there.
pub open spec fn money_field_of(members: Seq<(Seq<char>, Json)>, name: Seq<char>) -> Result<
    Seq<char>,
    Fault,
> {
    match field_of(members, name) {
        Ok(j) => money_of(j),
        Err(f) => Err(f),
    }
}

/// Reads the string under a member that must be there.
pub fn text_field(members: &Vec<(String, Value)>, name: &str) -> (r: Result<String, ParseError>)
    ensures
        outcome_view(r) == text_field_of(members_view(members@), name@),
{
    match field(members, name) {
        Ok(v) => text(v),
        Err(e) => Err(e),
    }
}

/// Reads the JSON number under a member that must be there.
pub fn number_field(members: &Vec<(String, Value)>, name: &str) -> (r: Result<u64, ParseError>)
    ensures
        outcome(r) == number_field_of(members_view(members@), name@),
{
    match field(members, name) {
        Ok(v) => unsigned_number(v),
        Err(e) => Err(e),
    }
}

/// Reads the number in the string under a member that must be there.
pub fn strnum_field(members: &Vec<(String, Value)>, name: &str) -> (r: Result<u64, ParseError>)
    ensures
        outcome(r) == strnum_field_of(members_view(members@), name@),
{
    match field(members, name) {
        Ok(v) => strnum(v),
        Err(e) => Err(e),
    }
}

/// Reads the yes/no token under a member that must be there.
pub fn yn_field(members: &Vec<(String, Value)>, name: &str) -> (r: Result<bool, ParseError>)
    ensures
        outcome(r) == yn_field_of(members_view(members@), name@),
{
    match field(members, name) {
        Ok(v) => yn(v),
        Err(e) => Err(e),
    }
}

/// Reads the amount under a member that must be there.
pub fn money_field(members: &Vec<(String, Value)>, name: &str) -> (r: Result<String, ParseError>)
    ensures
        outcome_view(r) == money_field_of(members_view(members@), name@),
{
    match field(members, name) {
        Ok(v) => money(v),
        Err(e) => Err(e),
    }
}

/// The coupon that the object `j` describes. Its members are read in the
/// order `code`, `max_per_user`, `first_year_only`, `type`, `amount`, and the
/// first that cannot be read gives the fault.
pub open spec fn coupon_of(j: Json) -> Result<CouponView, Fault> {
    match j {
        Json::Object(ms) => match text_field_of(ms, "code"@) {
            Err(f) => Err(f),
            Ok(code) => match number_field_of(ms, "max_per_user"@) {
                Err(f) => Err(f),
                Ok(max_per_user) => match yn_field_of(ms, "first_year_only"@) {
                    Err(f) => Err(f),
                    Ok(first_year_only) => match text_field_of(ms, "type"@) {
                        Err(f) => Err(f),
                        Ok(typ) => match number_field_of(ms, "amount"@) {
                            Err(f) => Err(f),
                            Ok(amount) => Ok(
                                CouponView { code, max_per_user, first_year_only, typ, amount },
                            ),
                        },
                    },
                },
            },
        },
        _ => Err(Fault::InvalidType),
    }
}

/// Reads one coupon.
pub fn coupon_entry(v: &Value) -> (r: Result<Coupon, ParseError>)
    ensures
        outcome_view(r) == coupon_of(v@),
{
    match v {
        Value::Object(members) => {
            proof {
                lemma_object_view(*members);
            }
            let code = text_field(members, "code")?;
            let max_per_user = number_field(members, "max_per_user")?;
            let first_year_only = yn_field(members, "first_year_only")?;
            let typ = text_field(members, "type")?;
            let amount = number_field(members, "amount")?;
            Ok(Coupon { code, max_per_user, first_year_only, typ, amount })
        },
        _ => Err(ParseError::InvalidType),
    }
}

/// The coupons that the members of an object describe, by code. The members
/// are read in order; the first that is no coupon gives the fault, and of two
/// members with one code the later stays.
pub open spec fn coupon_table_of(ms: Seq<(Seq<char>, Json)>) -> Result<
    Map<Seq<char>, CouponView>,
    Fault,
>
    decreases ms.len(),
{
    if ms.len() == 0 {
        Ok(Map::empty())
    } else {
        match coupon_table_of(ms.drop_last()) {
            Err(f) => Err(f),
            Ok(m) => match coupon_of(ms.last().1) {
                Err(f) => Err(f),
                Ok(c) => Ok(m.insert(ms.last().0, c)),
            },
        }
    }
}

/// What a coupon field holds: a mapping from code to coupon as it stands, or
/// an empty list, which stands for the empty mapping.
pub open spec fn coupons_of(j: Json) -> Result<Map<Seq<char>, CouponView>, Fault> {
    match j {
        Json::Array(items) => if items.len() == 0 {
            Ok(Map::empty())
        } else {
            Err(Fault::NonEmptyList)
        },
        Json::Object(ms) => coupon_table_of(ms),
        _ => Err(Fault::InvalidType),
    }
}

/// A table of coupons with each coupon taken by its view.
pub open spec fn coupon_views(m: Map<Seq<char>, Coupon>) -> Map<Seq<char>, CouponView> {
    m.map_values(|c: Coupon| c@)
}

/// Reads a coupon field, which comes as a mapping or, when there is no
/// coupon, as an empty list.
pub fn coupon(v: &Value) -> (r: Result<Table<Coupon>, ParseError>)
    ensures
        match r {
            Ok(t) => coupons_of(v@) == Ok::<Map<Seq<char>, CouponView>, Fault>(coupon_views(t@)),
            Err(e) => coupons_of(v@) == Err::<Map<Seq<char>, CouponView>, Fault>(e@),
        },
{
    match v {
        Value::Array(items) => {
            proof {
                lemma_array_view(*items);
            }
            if items.len() == 0 {
                let t = Table::new();
                assert(coupon_views(t@) =~= Map::empty());
                Ok(t)
            } else {
                Err(ParseError::NonEmptyList)
            }
        },
        Value::Object(members) => {
            proof {
                lemma_object_view(*members);
            }
            let ghost ms = members_view(members@);
            let mut t: Table<Coupon> = Table::new();
            let mut i: usize = 0;
            assert(ms.take(0) =~= Seq::empty());
            assert(coupon_views(t@) =~= Map::empty());
            while i < members.len()
                invariant
                    i <= members.len(),
                    ms == members_view(members@),
                    v@ == Json::Object(ms),
                    coupon_table_of(ms.take(i as int)) == Ok::<Map<Seq<char>, CouponView>, Fault>(
                        coupon_views(t@),
                    ),
                decreases members.len() - i,
            {
                proof {
                    assert(ms.take(i + 1).drop_last() =~= ms.take(i as int));
                    assert(ms.take(i + 1).last() == ms[i as int]);
                }
                match coupon_entry(&members[i].1) {
                    Ok(c) => {
                        let ghost before = t@;
                        t.insert(members[i].0.clone(), c);
                        assert(coupon_views(t@) =~= coupon_views(before).insert(ms[i as int].0, c@));
                    },
                    Err(e) => {
                        proof {
                            assert(coupon_table_of(ms.take(i + 1)) == Err::<
                                Map<Seq<char>, CouponView>,
                                Fault,
                            >(e@));
                            lemma_coupon_table_fault(ms, i as int + 1);
                        }
                        return Err(e);
                    },
                }
                i = i + 1;
            }
            assert(ms.take(i as int) =~= ms);
            Ok(t)
        },
        _ => Err(ParseError::InvalidType),
    }
}

/// A fault among the first members of an object is the fault of the whole.
proof fn lemma_coupon_table_fault(ms: Seq<(Seq<char>, Json)>, k: int)
    requires
        0 <= k <= ms.len(),
        coupon_table_of(ms.take(k)) is Err,
    ensures
        coupon_table_of(ms) == coupon_table_of(ms.take(k)),
    decreases ms.len() - k,
{
    if k == ms.len() {
        assert(ms.take(k) =~= ms);
    } else {
        assert(ms.drop_last().take(k) =~= ms.take(k));
        lemma_coupon_table_fault(ms.drop_last(), k);
    }
}

/// A mapping of coupons is kept as it is: where every member of an object
/// is a coupon, the table holds exactly the names of the members, each with
/// the coupon of the last member of that name.
pub proof fn lemma_coupon_table_keeps_members(ms: Seq<(Seq<char>, Json)>, name: Seq<char>)
    requires
        coupon_table_of(ms) is Ok,
    ensures
        coupon_table_of(ms)->Ok_0.contains_key(name) <==> member(ms, name) is Some,
        member(ms, name) is Some ==> coupon_of(member(ms, name)->Some_0) == Ok::<
            CouponView,
            Fault,
        >(coupon_table_of(ms)->Ok_0[name]),
    decreases ms.len(),
{
    if ms.len() > 0 {
        lemma_coupon_table_keeps_members(ms.drop_last(), name);
    }
}

/// What a coupon field holds when it comes as a list: the empty mapping for
/// the empty list, and a fault for any other.
pub proof fn lemma_coupon_list(items: Seq<Json>)
    ensures
        items.len() == 0 ==> coupons_of(Json::Array(items)) == Ok::<
            Map<Seq<char>, CouponView>,
            Fault,
        >(Map::empty()),
        items.len() > 0 ==> coupons_of(Json::Array(items)) == Err::<
            Map<Seq<char>, CouponView>,
            Fault,
        >(Fault::NonEmptyList),
{
}

} // verus!
