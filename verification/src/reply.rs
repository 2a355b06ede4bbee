//! What the answer to each kind of call means: the envelope is read, then
//! the payload that the call expects. The payload is made of the members of
//! the answer other than `status` and `message`.

use vstd::prelude::*;
use crate::api::{answer_of, envelope, Response};
use crate::dns::{record_list, record_list_of, record_views, Record, RecordView};
use crate::ipv4::{ipv4_of, parse_ipv4, Ipv4};
use crate::json::{lemma_object_view, members_view, Json, Value};
use crate::parse::{
    number_field, number_field_of, text_field, text_field_of, Fault, ParseError,
};
use crate::table::Table;
use crate::text::str_eq;
use crate::{price_of, ssl_of, Error, Failure, Price, PriceView, SSLResponse, SSLView};

verus! {

/// The members of an object; none for any other value.
pub open spec fn members_of(j: Json) -> Seq<(Seq<char>, Json)> {
    match j {
        Json::Object(ms) => ms,
        _ => Seq::empty(),
    }
}

/// What was read, where reading went well.
pub open spec fn read<T>(r: Result<T, Fault>) -> Option<T> {
    match r {
        Ok(t) => Some(t),
        Err(_) => None,
    }
}

/// Joins the envelope of `body` with the payload that was read from it.
fn finish<T>(body: &Value, payload: Option<T>) -> (r: Result<T, Error>)
    ensures
        match r {
            Ok(t) => answer_of(body@, payload) == Ok::<T, Failure>(t),
            Err(e) => answer_of(body@, payload) == Err::<T, Failure>(e@),
        },
{
    match envelope(body) {
        Err(e) => Err(Error::ParseError(e)),
        Ok((status, message)) => {
            let response = Response { status, message, payload };
            response.into()
        },
    }
}

/// Reads the answer to a call that gives nothing back but its success.
pub fn done(body: &Value) -> (r: Result<(), Error>)
    ensures
        match r {
            Ok(_) => answer_of(body@, Some(())) == Ok::<(), Failure>(()),
            Err(e) => answer_of(body@, Some(())) == Err::<(), Failure>(e@),
        },
{
    finish(body, Some(()))
}

/// Reads the answer to the creation of a record: the number of the new
/// record, under `id`.
pub fn record_id(body: &Value) -> (r: Result<u64, Error>)
    ensures
        match r {
            Ok(id) => answer_of(body@, read(number_field_of(members_of(body@), "id"@))) == Ok::<
                u64,
                Failure,
            >(id),
            Err(e) => answer_of(body@, read(number_field_of(members_of(body@), "id"@))) == Err::<
                u64,
                Failure,
            >(e@),
        },
{
    let payload = match body {
        Value::Object(members) => {
            proof {
                lemma_object_view(*members);
            }
            match number_field(members, "id") {
                Ok(id) => Some(id),
                Err(_) => None,
            }
        },
        _ => None,
    };
    finish(body, payload)
}

/// Reads the answer to a call for records: the list under `records`.
pub fn records(body: &Value) -> (r: Result<Vec<Record>, Error>)
    ensures
        match r {
            Ok(list) => answer_of(body@, read(record_list_of(members_of(body@)))) == Ok::<
                Seq<RecordView>,
                Failure,
            >(record_views(list@)),
            Err(e) => answer_of(body@, read(record_list_of(members_of(body@)))) == Err::<
                Seq<RecordView>,
                Failure,
            >(e@),
        },
{
    let payload = match body {
        Value::Object(members) => {
            proof {
                lemma_object_view(*members);
            }
            match record_list(members) {
                Ok(list) => Some(list),
                Err(_) => None,
            }
        },
        _ => None,
    };
    finish(body, payload)
}

/// Reads the answer to a call for a certificate bundle.
pub fn ssl(body: &Value) -> (r: Result<SSLResponse, Error>)
    ensures
        match r {
            Ok(bundle) => answer_of(body@, read(ssl_of(members_of(body@)))) == Ok::<
                SSLView,
                Failure,
            >(bundle@),
            Err(e) => answer_of(body@, read(ssl_of(members_of(body@)))) == Err::<
                SSLView,
                Failure,
            >(e@),
        },
{
    let payload = match body {
        Value::Object(members) => {
            proof {
                lemma_object_view(*members);
            }
            match SSLResponse::decode(members) {
                Ok(bundle) => Some(bundle),
                Err(_) => None,
            }
        },
        _ => None,
    };
    finish(body, payload)
}

/// The address under the member `yourIp`.
pub open spec fn your_ip_of(ms: Seq<(Seq<char>, Json)>) -> Result<Ipv4, Fault> {
    match text_field_of(ms, "yourIp"@) {
        Err(f) => Err(f),
        Ok(s) => match ipv4_of(s) {
            Some(ip) => Ok(ip),
            None => Err(Fault::InvalidValue(s)),
        },
    }
}

/// Reads the answer to a ping: the caller's address, under `yourIp`.
pub fn your_ip(body: &Value) -> (r: Result<Ipv4, Error>)
    ensures
        match r {
            Ok(ip) => answer_of(body@, read(your_ip_of(members_of(body@)))) == Ok::<
                Ipv4,
                Failure,
            >(ip),
            Err(e) => answer_of(body@, read(your_ip_of(members_of(body@)))) == Err::<
                Ipv4,
                Failure,
            >(e@),
        },
{
    let payload = match body {
        Value::Object(members) => {
            proof {
                lemma_object_view(*members);
            }
            match text_field(members, "yourIp") {
                Ok(s) => match parse_ipv4(s.as_str()) {
                    Ok(ip) => Some(ip),
                    Err(_) => None,
                },
                Err(_) => None,
            }
        },
        _ => None,
    };
    finish(body, payload)
}

/// Whether `name` is one of the two members that belong to the envelope and
/// not to the payload.
pub open spec fn is_envelope_name(name: Seq<char>) -> bool {
    name == "status"@ || name == "message"@
}

/// The prices that the payload members of an answer describe, by domain
/// extension. The members are read in order; the first that is no price
/// gives the fault, and of two members with one name the later stays.
pub open spec fn price_table_of(ms: Seq<(Seq<char>, Json)>) -> Result<
    Map<Seq<char>, PriceView>,
    Fault,
>
    decreases ms.len(),
{
    if ms.len() == 0 {
        Ok(Map::empty())
    } else {
        match price_table_of(ms.drop_last()) {
            Err(f) => Err(f),
            Ok(m) => if is_envelope_name(ms.last().0) {
                Ok(m)
            } else {
                match price_of(ms.last().1) {
                    Err(f) => Err(f),
                    Ok(p) => Ok(m.insert(ms.last().0, p)),
                }
            },
        }
    }
}

/// A fault among the first members of an answer is the fault of the whole.
proof fn lemma_price_table_fault(ms: Seq<(Seq<char>, Json)>, k: int)
    requires
        0 <= k <= ms.len(),
        price_table_of(ms.take(k)) is Err,
    ensures
        price_table_of(ms) == price_table_of(ms.take(k)),
    decreases ms.len() - k,
{
    if k == ms.len() {
        assert(ms.take(k) =~= ms);
    } else {
        assert(ms.drop_last().take(k) =~= ms.take(k));
        lemma_price_table_fault(ms.drop_last(), k);
    }
}

/// A table of prices with each price taken by its view.
pub open spec fn price_views(m: Map<Seq<char>, Price>) -> Map<Seq<char>, PriceView> {
    m.map_values(|p: Price| p@)
}

/// Reads the prices that the payload members of an answer describe.
pub fn price_table(members: &Vec<(String, Value)>) -> (r: Result<Table<Price>, ParseError>)
    ensures
        match r {
            Ok(t) => price_table_of(members_view(members@)) == Ok::<
                Map<Seq<char>, PriceView>,
                Fault,
            >(price_views(t@)),
            Err(e) => price_table_of(members_view(members@)) == Err::<
                Map<Seq<char>, PriceView>,
                Fault,
            >(e@),
        },
{
    let ghost ms = members_view(members@);
    let mut t: Table<Price> = Table::new();
    let mut i: usize = 0;
    assert(ms.take(0) =~= Seq::empty());
    assert(price_views(t@) =~= Map::empty());
    while i < members.len()
        invariant
            i <= members.len(),
            ms == members_view(members@),
            price_table_of(ms.take(i as int)) == Ok::<Map<Seq<char>, PriceView>, Fault>(
                price_views(t@),
            ),
        decreases members.len() - i,
    {
        proof {
            assert(ms.take(i + 1).drop_last() =~= ms.take(i as int));
            assert(ms.take(i + 1).last() == ms[i as int]);
        }
        let name = members[i].0.as_str();
        if !(str_eq(name, "status") || str_eq(name, "message")) {
            match Price::decode(&members[i].1) {
                Ok(p) => {
                    let ghost before = t@;
                    t.insert(members[i].0.clone(), p);
                    assert(price_views(t@) =~= price_views(before).insert(ms[i as int].0, p@));
                },
                Err(e) => {
                    proof {
                        assert(price_table_of(ms.take(i + 1)) == Err::<
                            Map<Seq<char>, PriceView>,
                            Fault,
                        >(e@));
                        lemma_price_table_fault(ms, i as int + 1);
                    }
                    return Err(e);
                },
            }
        }
        i = i + 1;
    }
    assert(ms.take(i as int) =~= ms);
    Ok(t)
}

/// Reads the answer to a call for prices: one price for each payload
/// member, under the member's name.
pub fn prices(body: &Value) -> (r: Result<Table<Price>, Error>)
    ensures
        match r {
            Ok(t) => answer_of(body@, read(price_table_of(members_of(body@)))) == Ok::<
                Map<Seq<char>, PriceView>,
                Failure,
            >(price_views(t@)),
            Err(e) => answer_of(body@, read(price_table_of(members_of(body@)))) == Err::<
                Map<Seq<char>, PriceView>,
                Failure,
            >(e@),
        },
{
    let payload = match body {
        Value::Object(members) => {
            proof {
                lemma_object_view(*members);
            }
            match price_table(members) {
                Ok(t) => Some(t),
                Err(_) => None,
            }
        },
        _ => None,
    };
    finish(body, payload)
}

} // verus!
