//! The wire values that requests and answers are made of: a JSON document
//! held as a tree, with its mathematical view.

use vstd::prelude::*;
use crate::text::str_eq;

verus! {

/// A JSON number.
#[derive(Clone, Copy, Debug, PartialEq, Eq, Structural)]
pub enum Number {
    /// A whole number from 0 up.
    Unsigned(u64),
    /// A whole number below 0.
    Negative(i64),
    /// A number written with a fraction or an exponent, kept as the 64 bits
    /// of its binary form.
    Fractional(u64),
}

/// A JSON value as it travels on the wire. An object keeps its members in
/// the order in which they were written.
#[derive(Debug)]
pub enum Value {
    Null,
    Bool(bool),
    Number(Number),
    String(String),
    Array(Vec<Value>),
    Object(Vec<(String, Value)>),
}

/// The mathematical view of a [`Value`].
pub enum Json {
    Null,
    Bool(bool),
    Number(Number),
    String(Seq<char>),
    Array(Seq<Json>),
    Object(Seq<(Seq<char>, Json)>),
}

/// The mathematical value of a wire value, taken item by item.
pub open spec fn json_of(v: Value) -> Json
    decreases v,
{
    match v {
        Value::Null => Json::Null,
        Value::Bool(b) => Json::Bool(b),
        Value::Number(n) => Json::Number(n),
        Value::String(s) => Json::String(s@),
        Value::Array(items) => Json::Array(
            Seq::new(
                items@.len(),
                |i: int|
                    if 0 <= i < items@.len() {
                        json_of(items@[i])
                    } else {
                        Json::Null
                    },
            ),
        ),
        Value::Object(members) => Json::Object(
            Seq::new(
                members@.len(),
                |i: int|
                    if 0 <= i < members@.len() {
                        (members@[i].0@, json_of(members@[i].1))
                    } else {
                        (Seq::empty(), Json::Null)
                    },
            ),
        ),
    }
}

impl View for Value {
    type V = Json;

    open spec fn view(&self) -> Json {
        json_of(*self)
    }
}

/// The value that an object's members give to `name`: that of the last
/// member so named, as a reader that fills a map member by member would keep.
pub open spec fn member(members: Seq<(Seq<char>, Json)>, name: Seq<char>) -> Option<Json>
    decreases members.len(),
{
    if members.len() == 0 {
        None
    } else if members.last().0 == name {
        Some(members.last().1)
    } else {
        member(members.drop_last(), name)
    }
}

/// A member after which no member has the same name is the one that the
/// object gives under that name.
pub proof fn lemma_member_at(members: Seq<(Seq<char>, Json)>, i: int, name: Seq<char>)
    requires
        0 <= i < members.len(),
        members[i].0 == name,
        forall|j: int| i < j < members.len() ==> (#[trigger] members[j]).0 != name,
    ensures
        member(members, name) == Some(members[i].1),
    decreases members.len(),
{
    if i < members.len() - 1 {
        assert(members[members.len() - 1].0 != name);
        let head = members.drop_last();
        assert forall|j: int| i < j < head.len() implies (#[trigger] head[j]).0 != name by {
            assert(head[j] == members[j]);
        }
        lemma_member_at(head, i, name);
    }
}

/// The views of an object's members, in order.
pub open spec fn members_view(members: Seq<(String, Value)>) -> Seq<(Seq<char>, Json)> {
    Seq::new(members.len(), |i: int| (members[i].0@, members[i].1@))
}

/// The views of an array's items, in order.
pub open spec fn items_view(items: Seq<Value>) -> Seq<Json> {
    Seq::new(items.len(), |i: int| items[i]@)
}

/// What the view of an array is, item by item.
pub proof fn lemma_array_view(items: Vec<Value>)
    ensures
        Value::Array(items)@ == Json::Array(items_view(items@)),
{
    assert(Value::Array(items)@->Array_0 =~= items_view(items@));
}

/// What the view of an object is, member by member.
pub proof fn lemma_object_view(members: Vec<(String, Value)>)
    ensures
        Value::Object(members)@ == Json::Object(members_view(members@)),
{
    assert(Value::Object(members)@->Object_0 =~= members_view(members@));
}

/// Finds the member `name` among an object's members.
pub fn find<'a>(members: &'a Vec<(String, Value)>, name: &str) -> (found: Option<&'a Value>)
    ensures
        match found {
            Some(v) => member(members_view(members@), name@) == Some(v@),
            None => member(members_view(members@), name@) is None,
        },
{
    let ghost all = members_view(members@);
    let mut i: usize = members.len();
    assert(all.take(i as int) =~= all);
    while i > 0
        invariant
            i <= members.len(),
            all == members_view(members@),
            member(all, name@) == member(all.take(i as int), name@),
        decreases i,
    {
        i = i - 1;
        proof {
            let head = all.take(i as int + 1);
            assert(head.last() == all[i as int]);
            assert(head.drop_last() =~= all.take(i as int));
        }
        if str_eq(members[i].0.as_str(), name) {
            return Some(&members[i].1);
        }
    }
    assert(all.take(0).len() == 0);
    None
}

} // verus!
