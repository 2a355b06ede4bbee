//! DNS records: their kinds, how one is read from the wire, how a request to
//! write one is put on the wire, and the paths that address one by name and
//! kind.

use vstd::prelude::*;
use crate::ipv4::{ipv4_of, parse_ipv4, AddrParseError, Ipv4};
use crate::json::{
    find, items_view, lemma_array_view, lemma_member_at, lemma_object_view, member, members_view,
    Json, Number, Value,
};
use crate::parse::{
    field, field_of, opt_strnum, opt_strnum_of, opt_text, opt_text_of, optional_of, outcome,
    outcome_view, strnum_field, strnum_field_of, text_field, text_field_of, Fault, ParseError,
};
use crate::text::{decimal, lemma_decimal_round_trip, str_eq};

verus! {

/// The kinds of DNS record that the registrar knows.
#[derive(Debug, Clone, Copy, PartialEq, Eq, Structural)]
pub enum RecordType {
    A,
    MX,
    CNAME,
    ALIAS,
    TXT,
    NS,
    AAAA,
    SRV,
    TLSA,
    CAA,
}

/// The name under which a kind of record travels.
pub open spec fn kind_name(t: RecordType) -> Seq<char> {
    match t {
        RecordType::A => "A"@,
        RecordType::MX => "MX"@,
        RecordType::CNAME => "CNAME"@,
        RecordType::ALIAS => "ALIAS"@,
        RecordType::TXT => "TXT"@,
        RecordType::NS => "NS"@,
        RecordType::AAAA => "AAAA"@,
        RecordType::SRV => "SRV"@,
        RecordType::TLSA => "TLSA"@,
        RecordType::CAA => "CAA"@,
    }
}

/// The kind of record that travels under the name `s`, if there is one.
pub open spec fn kind_named(s: Seq<char>) -> Option<RecordType> {
    if s == "A"@ {
        Some(RecordType::A)
    } else if s == "MX"@ {
        Some(RecordType::MX)
    } else if s == "CNAME"@ {
        Some(RecordType::CNAME)
    } else if s == "ALIAS"@ {
        Some(RecordType::ALIAS)
    } else if s == "TXT"@ {
        Some(RecordType::TXT)
    } else if s == "NS"@ {
        Some(RecordType::NS)
    } else if s == "AAAA"@ {
        Some(RecordType::AAAA)
    } else if s == "SRV"@ {
        Some(RecordType::SRV)
    } else if s == "TLSA"@ {
        Some(RecordType::TLSA)
    } else if s == "CAA"@ {
        Some(RecordType::CAA)
    } else {
        None
    }
}

/// Every kind is found again under its own name, and under no other.
pub proof fn lemma_kind_name_round_trip(t: RecordType)
    ensures
        kind_named(kind_name(t)) == Some(t),
        forall|s: Seq<char>| kind_named(s) == Some(t) ==> s == kind_name(t),
{
    reveal_strlit("A");
    reveal_strlit("MX");
    reveal_strlit("CNAME");
    reveal_strlit("ALIAS");
    reveal_strlit("TXT");
    reveal_strlit("NS");
    reveal_strlit("AAAA");
    reveal_strlit("SRV");
    reveal_strlit("TLSA");
    reveal_strlit("CAA");
    assert("A"@.len() == 1 && "MX"@.len() == 2 && "NS"@.len() == 2);
    assert("TXT"@.len() == 3 && "SRV"@.len() == 3 && "CAA"@.len() == 3);
    assert("AAAA"@.len() == 4 && "TLSA"@.len() == 4);
    assert("CNAME"@.len() == 5 && "ALIAS"@.len() == 5);
    assert("MX"@[0] == 'M' && "NS"@[0] == 'N');
    assert("TXT"@[0] == 'T' && "SRV"@[0] == 'S' && "CAA"@[0] == 'C');
    assert("AAAA"@[0] == 'A' && "TLSA"@[0] == 'T');
    assert("CNAME"@[0] == 'C' && "ALIAS"@[0] == 'A');
}

impl RecordType {
    /// The name under which this kind travels.
    pub fn as_str(&self) -> (s: &'static str)
        ensures
            s@ == kind_name(*self),
    {
        match self {
            RecordType::A => "A",
            RecordType::MX => "MX",
            RecordType::CNAME => "CNAME",
            RecordType::ALIAS => "ALIAS",
            RecordType::TXT => "TXT",
            RecordType::NS => "NS",
            RecordType::AAAA => "AAAA",
            RecordType::SRV => "SRV",
            RecordType::TLSA => "TLSA",
            RecordType::CAA => "CAA",
        }
    }

    /// The name of this kind as a string of its own.
    pub fn to_string(&self) -> (s: String)
        ensures
            s@ == kind_name(*self),
    {
        self.as_str().to_owned()
    }

    /// The kind that travels under the name `s`.
    pub fn from_name(s: &str) -> (t: Option<RecordType>)
        ensures
            t == kind_named(s@),
    {
        if str_eq(s, "A") {
            Some(RecordType::A)
        } else if str_eq(s, "MX") {
            Some(RecordType::MX)
        } else if str_eq(s, "CNAME") {
            Some(RecordType::CNAME)
        } else if str_eq(s, "ALIAS") {
            Some(RecordType::ALIAS)
        } else if str_eq(s, "TXT") {
            Some(RecordType::TXT)
        } else if str_eq(s, "NS") {
            Some(RecordType::NS)
        } else if str_eq(s, "AAAA") {
            Some(RecordType::AAAA)
        } else if str_eq(s, "SRV") {
            Some(RecordType::SRV)
        } else if str_eq(s, "TLSA") {
            Some(RecordType::TLSA)
        } else if str_eq(s, "CAA") {
            Some(RecordType::CAA)
        } else {
            None
        }
    }
}

/// The kind of record that `j` names.
pub open spec fn record_type_of(j: Json) -> Result<RecordType, Fault> {
    match j {
        Json::String(s) => match kind_named(s) {
            Some(t) => Ok(t),
            None => Err(Fault::InvalidValue(s)),
        },
        _ => Err(Fault::InvalidType),
    }
}

/// Reads the kind of a record.
pub fn record_type(v: &Value) -> (r: Result<RecordType, ParseError>)
    ensures
        outcome(r) == record_type_of(v@),
{
    match v {
        Value::String(s) => match RecordType::from_name(s.as_str()) {
            Some(t) => Ok(t),
            None => Err(ParseError::InvalidValue(s.clone())),
        },
        _ => Err(ParseError::InvalidType),
    }
}

/// One DNS record as the registrar reports it.
#[derive(Debug)]
pub struct Record {
    pub id: u64,
    pub name: String,
    pub ttl: u64,
    pub typ: RecordType,
    pub content: String,
    pub prio: Option<u64>,
    pub notes: Option<String>,
}

/// The mathematical view of a [`Record`].
pub struct RecordView {
    pub id: u64,
    pub name: Seq<char>,
    pub ttl: u64,
    pub typ: RecordType,
    pub content: Seq<char>,
    pub prio: Option<u64>,
    pub notes: Option<Seq<char>>,
}

impl View for Record {
    type V = RecordView;

    open spec fn view(&self) -> RecordView {
        RecordView {
            id: self.id,
            name: self.name@,
            ttl: self.ttl,
            typ: self.typ,
            content: self.content@,
            prio: self.prio,
            notes: match self.notes {
                Some(s) => Some(s@),
                None => None,
            },
        }
    }
}

/// The record that the object `j` describes. `id`, `ttl` and `prio` travel
/// as strings of digits; `prio` and `notes` may be null or left out. The
/// members are read in the order `id`, `name`, `ttl`, `type`, `content`,
/// `prio`, `notes`, and the first that cannot be read gives the fault.
pub open spec fn record_of(j: Json) -> Result<RecordView, Fault> {
    match j {
        Json::Object(ms) => match strnum_field_of(ms, "id"@) {
            Err(f) => Err(f),
            Ok(id) => match text_field_of(ms, "name"@) {
                Err(f) => Err(f),
                Ok(name) => match strnum_field_of(ms, "ttl"@) {
                    Err(f) => Err(f),
                    Ok(ttl) => match field_of(ms, "type"@) {
                        Err(f) => Err(f),
                        Ok(kind) => match record_type_of(kind) {
                            Err(f) => Err(f),
                            Ok(typ) => match text_field_of(ms, "content"@) {
                                Err(f) => Err(f),
                                Ok(content) => match opt_strnum_of(optional_of(ms, "prio"@)) {
                                    Err(f) => Err(f),
                                    Ok(prio) => match opt_text_of(optional_of(ms, "notes"@)) {
                                        Err(f) => Err(f),
                                        Ok(notes) => Ok(
                                            RecordView { id, name, ttl, typ, content, prio, notes },
                                        ),
                                    },
                                },
                            },
                        },
                    },
                },
            },
        },
        _ => Err(Fault::InvalidType),
    }
}

impl PartialEq for Record {
    fn eq(&self, other: &Record) -> (same: bool) {
        let prio = match (self.prio, other.prio) {
            (Some(a), Some(b)) => a == b,
            (None, None) => true,
            _ => false,
        };
        let notes = match (&self.notes, &other.notes) {
            (Some(a), Some(b)) => str_eq(a.as_str(), b.as_str()),
            (None, None) => true,
            _ => false,
        };
        self.id == other.id && str_eq(self.name.as_str(), other.name.as_str()) && self.ttl
            == other.ttl && self.typ == other.typ && str_eq(
            self.content.as_str(),
            other.content.as_str(),
        ) && prio && notes
    }
}

impl vstd::std_specs::cmp::PartialEqSpecImpl for Record {
    open spec fn obeys_eq_spec() -> bool {
        true
    }

    open spec fn eq_spec(&self, other: &Record) -> bool {
        self@ == other@
    }
}

impl Record {
    /// The IPv4 address that the content of the record denotes.
    pub fn ip(&self) -> (r: Result<Ipv4, AddrParseError>)
        ensures
            match r {
                Ok(ip) => ipv4_of(self.content@) == Some(ip),
                Err(_) => ipv4_of(self.content@) is None,
            },
    {
        parse_ipv4(self.content.as_str())
    }

    /// Reads one record.
    pub fn decode(v: &Value) -> (r: Result<Record, ParseError>)
        ensures
            outcome_view(r) == record_of(v@),
    {
        match v {
            Value::Object(members) => {
                proof {
                    lemma_object_view(*members);
                }
                let id = strnum_field(members, "id")?;
                let name = text_field(members, "name")?;
                let ttl = strnum_field(members, "ttl")?;
                let typ = record_type(field(members, "type")?)?;
                let content = text_field(members, "content")?;
                let prio = match find(members, "prio") {
                    Some(p) => opt_strnum(p)?,
                    None => None,
                };
                let notes = match find(members, "notes") {
                    Some(n) => opt_text(n)?,
                    None => None,
                };
                Ok(Record { id, name, ttl, typ, content, prio, notes })
            },
            _ => Err(ParseError::InvalidType),
        }
    }
}

/// The records that the items of a list describe, in order; the first item
/// that is no record gives the fault.
pub open spec fn records_of(items: Seq<Json>) -> Result<Seq<RecordView>, Fault>
    decreases items.len(),
{
    if items.len() == 0 {
        Ok(Seq::empty())
    } else {
        match records_of(items.drop_last()) {
            Err(f) => Err(f),
            Ok(list) => match record_of(items.last()) {
                Err(f) => Err(f),
                Ok(r) => Ok(list.push(r)),
            },
        }
    }
}

/// A fault among the first items of a list is the fault of the whole.
proof fn lemma_records_fault(items: Seq<Json>, k: int)
    requires
        0 <= k <= items.len(),
        records_of(items.take(k)) is Err,
    ensures
        records_of(items) == records_of(items.take(k)),
    decreases items.len() - k,
{
    if k == items.len() {
        assert(items.take(k) =~= items);
    } else {
        assert(items.drop_last().take(k) =~= items.take(k));
        lemma_records_fault(items.drop_last(), k);
    }
}

/// A list of records with each record taken by its view.
pub open spec fn record_views(list: Seq<Record>) -> Seq<RecordView> {
    list.map_values(|r: Record| r@)
}

/// The records under the member `records` of an answer.
pub open spec fn record_list_of(members: Seq<(Seq<char>, Json)>) -> Result<Seq<RecordView>, Fault> {
    match field_of(members, "records"@) {
        Err(f) => Err(f),
        Ok(Json::Array(items)) => records_of(items),
        Ok(_) => Err(Fault::InvalidType),
    }
}

/// Reads the list of records that an answer holds under `records`.
pub fn record_list(members: &Vec<(String, Value)>) -> (r: Result<Vec<Record>, ParseError>)
    ensures
        match r {
            Ok(list) => record_list_of(members_view(members@)) == Ok::<Seq<RecordView>, Fault>(
                record_views(list@),
            ),
            Err(e) => record_list_of(members_view(members@)) == Err::<Seq<RecordView>, Fault>(e@),
        },
{
    match field(members, "records")? {
        Value::Array(items) => {
            proof {
                lemma_array_view(*items);
            }
            let ghost js = items_view(items@);
            let mut list: Vec<Record> = Vec::new();
            let mut i: usize = 0;
            assert(js.take(0) =~= Seq::empty());
            assert(record_views(list@) =~= Seq::empty());
            assert(record_list_of(members_view(members@)) == records_of(js));
            while i < items.len()
                invariant
                    i <= items.len(),
                    js == items_view(items@),
                    record_list_of(members_view(members@)) == records_of(js),
                    records_of(js.take(i as int)) == Ok::<Seq<RecordView>, Fault>(
                        record_views(list@),
                    ),
                decreases items.len() - i,
            {
                proof {
                    assert(js.take(i + 1).drop_last() =~= js.take(i as int));
                    assert(js.take(i + 1).last() == js[i as int]);
                }
                match Record::decode(&items[i]) {
                    Ok(rec) => {
                        let ghost before = list@;
                        list.push(rec);
                        assert(record_views(list@) =~= record_views(before).push(rec@));
                    },
                    Err(e) => {
                        proof {
                            assert(records_of(js.take(i + 1)) == Err::<Seq<RecordView>, Fault>(e@));
                            lemma_records_fault(js, i as int + 1);
                        }
                        return Err(e);
                    },
                }
                i = i + 1;
            }
            assert(js.take(i as int) =~= js);
            Ok(list)
        },
        _ => Err(ParseError::InvalidType),
    }
}

/// What a request to write a record holds.
pub struct Req<'s> {
    pub name: Option<&'s str>,
    pub typ: RecordType,
    pub content: &'s str,
    pub ttl: Option<u64>,
    pub prio: Option<u64>,
}

/// A string that may be left out, on the wire: null stands for none.
pub open spec fn opt_text_json(s: Option<Seq<char>>) -> Json {
    match s {
        Some(t) => Json::String(t),
        None => Json::Null,
    }
}

/// A number that may be left out, on the wire: null stands for none.
pub open spec fn opt_number_json(n: Option<u64>) -> Json {
    match n {
        Some(k) => Json::Number(Number::Unsigned(k)),
        None => Json::Null,
    }
}

/// Puts a number that may be left out on the wire.
pub fn opt_number(n: Option<u64>) -> (v: Value)
    ensures
        v@ == opt_number_json(n),
{
    match n {
        Some(k) => Value::Number(Number::Unsigned(k)),
        None => Value::Null,
    }
}

impl<'s> Req<'s> {
    /// The name of the request as a sequence of characters, if it has one.
    pub open spec fn name_view(&self) -> Option<Seq<char>> {
        match self.name {
            Some(n) => Some(n@),
            None => None,
        }
    }

    /// The members that the request puts on the wire.
    pub open spec fn members(&self) -> Seq<(Seq<char>, Json)> {
        seq![
            ("name"@, opt_text_json(self.name_view())),
            ("type"@, Json::String(kind_name(self.typ))),
            ("content"@, Json::String(self.content@)),
            ("ttl"@, opt_number_json(self.ttl)),
            ("prio"@, opt_number_json(self.prio)),
        ]
    }

    /// Puts the request on the wire, member by member.
    pub fn fields(&self) -> (ms: Vec<(String, Value)>)
        ensures
            members_view(ms@) == self.members(),
    {
        let name = match self.name {
            Some(n) => Value::String(n.to_owned()),
            None => Value::Null,
        };
        let mut ms: Vec<(String, Value)> = Vec::new();
        ms.push(("name".to_owned(), name));
        ms.push(("type".to_owned(), Value::String(self.typ.to_string())));
        ms.push(("content".to_owned(), Value::String(self.content.to_owned())));
        ms.push(("ttl".to_owned(), opt_number(self.ttl)));
        ms.push(("prio".to_owned(), opt_number(self.prio)));
        assert(members_view(ms@) =~= self.members());
        ms
    }
}

/// A number that may be left out, as the registrar writes it in a record:
/// in digits inside a string, or null.
pub open spec fn opt_decimal_json(n: Option<u64>) -> Json {
    match n {
        Some(k) => Json::String(decimal(k as nat)),
        None => Json::Null,
    }
}

/// The members with which the registrar reports a record: the numbers in
/// digits inside strings, the kind by its name.
pub open spec fn record_members(r: RecordView) -> Seq<(Seq<char>, Json)> {
    seq![
        ("id"@, Json::String(decimal(r.id as nat))),
        ("name"@, Json::String(r.name)),
        ("type"@, Json::String(kind_name(r.typ))),
        ("content"@, Json::String(r.content)),
        ("ttl"@, Json::String(decimal(r.ttl as nat))),
        ("prio"@, opt_decimal_json(r.prio)),
        ("notes"@, opt_text_json(r.notes)),
    ]
}

/// The names of the members of a record and of a request differ from one
/// another.
proof fn lemma_member_names_differ()
    ensures
        "id"@.len() == 2,
        "ttl"@.len() == 3,
        "name"@.len() == 4 && "name"@[0] == 'n',
        "type"@.len() == 4 && "type"@[0] == 't',
        "prio"@.len() == 4 && "prio"@[0] == 'p',
        "notes"@.len() == 5,
        "content"@.len() == 7,
{
    reveal_strlit("id");
    reveal_strlit("ttl");
    reveal_strlit("name");
    reveal_strlit("type");
    reveal_strlit("prio");
    reveal_strlit("notes");
    reveal_strlit("content");
}

/// A record that is read from the members with which it is reported is the
/// record that was reported.
pub proof fn lemma_record_round_trip(r: RecordView)
    ensures
        record_of(Json::Object(record_members(r))) == Ok::<RecordView, Fault>(r),
{
    let ms = record_members(r);
    lemma_member_names_differ();
    lemma_member_at(ms, 0, "id"@);
    lemma_member_at(ms, 1, "name"@);
    lemma_member_at(ms, 2, "type"@);
    lemma_member_at(ms, 3, "content"@);
    lemma_member_at(ms, 4, "ttl"@);
    lemma_member_at(ms, 5, "prio"@);
    lemma_member_at(ms, 6, "notes"@);
    lemma_decimal_round_trip(r.id);
    lemma_decimal_round_trip(r.ttl);
    lemma_kind_name_round_trip(r.typ);
    match r.prio {
        Some(p) => {
            lemma_decimal_round_trip(p);
        },
        None => {},
    }
    let read = record_of(Json::Object(ms))->Ok_0;
    assert(record_of(Json::Object(ms)) is Ok);
    assert(read.notes == r.notes);
    assert(read.prio == r.prio);
}

/// The record that the registrar keeps for a request to write one, read
/// back from the wire, has the kind and the content of the request, and its
/// time to live where the request gave one.
pub proof fn lemma_request_round_trip(
    q: Req,
    id: u64,
    name: Seq<char>,
    ttl: u64,
    prio: Option<u64>,
    notes: Option<Seq<char>>,
)
    requires
        q.ttl matches Some(t) ==> t == ttl,
    ensures
        ({
            let kept = RecordView { id, name, ttl, typ: q.typ, content: q.content@, prio, notes };
            let back = record_of(Json::Object(record_members(kept)));
            &&& member(record_members(kept), "type"@) == member(q.members(), "type"@)
            &&& member(record_members(kept), "content"@) == member(q.members(), "content"@)
            &&& back is Ok
            &&& back->Ok_0.typ == q.typ
            &&& back->Ok_0.content == q.content@
            &&& q.ttl matches Some(t) ==> back->Ok_0.ttl == t
        }),
{
    let kept = RecordView { id, name, ttl, typ: q.typ, content: q.content@, prio, notes };
    lemma_member_names_differ();
    lemma_member_at(record_members(kept), 2, "type"@);
    lemma_member_at(record_members(kept), 3, "content"@);
    lemma_member_at(q.members(), 1, "type"@);
    lemma_member_at(q.members(), 2, "content"@);
    lemma_record_round_trip(kept);
}

/// The path that addresses the records of one kind under a domain, and under
/// a subdomain of it where one is given.
pub open spec fn dst_path(
    path: Seq<char>,
    domain: Seq<char>,
    typ: RecordType,
    subdomain: Option<Seq<char>>,
) -> Seq<char> {
    let base = path + "/"@ + domain + "/"@ + kind_name(typ);
    match subdomain {
        Some(s) => base + "/"@ + s,
        None => base,
    }
}

/// The view of a string that may be left out.
pub open spec fn opt_str_view(s: Option<&str>) -> Option<Seq<char>> {
    match s {
        Some(t) => Some(t@),
        None => None,
    }
}

/// Builds the path that addresses records by name and kind. A subdomain that
/// is left out adds nothing to the path, not even a stroke.
pub fn fmt_dst(path: &str, domain: &str, typ: RecordType, subdomain: Option<&str>) -> (out: String)
    ensures
        out@ == dst_path(path@, domain@, typ, opt_str_view(subdomain)),
{
    let mut out = path.to_owned();
    out.append("/");
    out.append(domain);
    out.append("/");
    out.append(typ.as_str());
    if let Some(s) = subdomain {
        out.append("/");
        out.append(s);
    }
    out
}

} // verus!
