//! A typed client core for the Porkbun registrar's JSON API.

use vstd::prelude::*;
use crate::api::{url_of, Request};
use crate::dns::{dst_path, fmt_dst, opt_number, opt_number_json, opt_str_view, RecordType, Req};
use crate::json::{items_view, lemma_array_view, lemma_object_view, members_view, Json, Value};
use crate::parse::{
    coupon, coupon_views, coupons_of, field, field_of, money_field, money_field_of, outcome_view,
    text_field, text_field_of, Fault, ParseError,
};
use crate::table::Table;
use crate::text::{decimal, push_decimal};

pub mod amount;
pub mod api;
pub mod dns;
pub mod ipv4;
pub mod json;
pub mod parse;
pub mod reply;
pub mod table;
pub mod text;

verus! {

/// How a call to the registrar can fail.
#[derive(Debug)]
pub enum Error {
    /// The registrar reported an error; holds its message as it came.
    ApiError(String),
    /// The exchange itself failed; holds what the transport said of it.
    RequestError(String),
    /// The answer was no envelope that could be read.
    ParseError(parse::ParseError),
    /// The envelope broke its own rules: a success without a payload that
    /// could be read, or an error without a message.
    UnexpectedError,
}

/// The mathematical view of an [`Error`].
pub enum Failure {
    ApiError(Seq<char>),
    RequestError(Seq<char>),
    ParseError(parse::Fault),
    UnexpectedError,
}

impl View for Error {
    type V = Failure;

    open spec fn view(&self) -> Failure {
        match self {
            Error::ApiError(m) => Failure::ApiError(m@),
            Error::RequestError(m) => Failure::RequestError(m@),
            Error::ParseError(e) => Failure::ParseError(e@),
            Error::UnexpectedError => Failure::UnexpectedError,
        }
    }
}

/// A coupon that lowers a price.
#[derive(Debug)]
pub struct Coupon {
    pub code: String,
    pub max_per_user: u64,
    pub first_year_only: bool,
    pub typ: String,
    pub amount: u64,
}

/// The mathematical view of a [`Coupon`].
pub struct CouponView {
    pub code: Seq<char>,
    pub max_per_user: u64,
    pub first_year_only: bool,
    pub typ: Seq<char>,
    pub amount: u64,
}

impl View for Coupon {
    type V = CouponView;

    open spec fn view(&self) -> CouponView {
        CouponView {
            code: self.code@,
            max_per_user: self.max_per_user,
            first_year_only: self.first_year_only,
            typ: self.typ@,
            amount: self.amount,
        }
    }
}

/// The four parts of a certificate bundle, each as the text that came.
#[derive(Debug)]
pub struct SSLResponse {
    pub intermediate_cert: String,
    pub certificate_chain: String,
    pub public_key: String,
    pub private_key: String,
}

/// The mathematical view of an [`SSLResponse`].
pub struct SSLView {
    pub intermediate_cert: Seq<char>,
    pub certificate_chain: Seq<char>,
    pub public_key: Seq<char>,
    pub private_key: Seq<char>,
}

impl View for SSLResponse {
    type V = SSLView;

    open spec fn view(&self) -> SSLView {
        SSLView {
            intermediate_cert: self.intermediate_cert@,
            certificate_chain: self.certificate_chain@,
            public_key: self.public_key@,
            private_key: self.private_key@,
        }
    }
}

/// The bundle that the members of an answer describe. They are read in the
/// order `intermediatecertificate`, `certificatechain`, `publickey`,
/// `privatekey`, and the first that cannot be read gives the fault.
pub open spec fn ssl_of(ms: Seq<(Seq<char>, Json)>) -> Result<SSLView, Fault> {
    match text_field_of(ms, "intermediatecertificate"@) {
        Err(f) => Err(f),
        Ok(intermediate_cert) => match text_field_of(ms, "certificatechain"@) {
            Err(f) => Err(f),
            Ok(certificate_chain) => match text_field_of(ms, "publickey"@) {
                Err(f) => Err(f),
                Ok(public_key) => match text_field_of(ms, "privatekey"@) {
                    Err(f) => Err(f),
                    Ok(private_key) => Ok(
                        SSLView { intermediate_cert, certificate_chain, public_key, private_key },
                    ),
                },
            },
        },
    }
}

impl SSLResponse {
    /// Reads a certificate bundle from the members of an answer.
    pub fn decode(members: &Vec<(String, Value)>) -> (r: Result<SSLResponse, ParseError>)
        ensures
            outcome_view(r) == ssl_of(members_view(members@)),
    {
        let intermediate_cert = text_field(members, "intermediatecertificate")?;
        let certificate_chain = text_field(members, "certificatechain")?;
        let public_key = text_field(members, "publickey")?;
        let private_key = text_field(members, "privatekey")?;
        Ok(SSLResponse { intermediate_cert, certificate_chain, public_key, private_key })
    }
}

/// What one domain extension costs. Each amount is held as the text of a
/// decimal number, without the commas it came with.
#[derive(Debug)]
pub struct Price {
    pub registration: String,
    pub renewal: String,
    pub transfer: String,
    pub coupons: Table<Coupon>,
}

/// The mathematical view of a [`Price`].
pub struct PriceView {
    pub registration: Seq<char>,
    pub renewal: Seq<char>,
    pub transfer: Seq<char>,
    pub coupons: Map<Seq<char>, CouponView>,
}

impl View for Price {
    type V = PriceView;

    open spec fn view(&self) -> PriceView {
        PriceView {
            registration: self.registration@,
            renewal: self.renewal@,
            transfer: self.transfer@,
            coupons: coupon_views(self.coupons@),
        }
    }
}

/// The price that the object `j` describes. Its members are read in the
/// order `registration`, `renewal`, `transfer`, `coupons`, and the first
/// that cannot be read gives the fault.
pub open spec fn price_of(j: Json) -> Result<PriceView, Fault> {
    match j {
        Json::Object(ms) => match money_field_of(ms, "registration"@) {
            Err(f) => Err(f),
            Ok(registration) => match money_field_of(ms, "renewal"@) {
                Err(f) => Err(f),
                Ok(renewal) => match money_field_of(ms, "transfer"@) {
                    Err(f) => Err(f),
                    Ok(transfer) => match field_of(ms, "coupons"@) {
                        Err(f) => Err(f),
                        Ok(c) => match coupons_of(c) {
                            Err(f) => Err(f),
                            Ok(coupons) => Ok(
                                PriceView { registration, renewal, transfer, coupons },
                            ),
                        },
                    },
                },
            },
        },
        _ => Err(Fault::InvalidType),
    }
}

impl Price {
    /// Reads one price.
    pub fn decode(v: &Value) -> (r: Result<Price, ParseError>)
        ensures
            outcome_view(r) == price_of(v@),
    {
        match v {
            Value::Object(members) => {
                proof {
                    lemma_object_view(*members);
                }
                let registration = money_field(members, "registration")?;
                let renewal = money_field(members, "renewal")?;
                let transfer = money_field(members, "transfer")?;
                let coupons = coupon(field(members, "coupons")?)?;
                Ok(Price { registration, renewal, transfer, coupons })
            },
            _ => Err(ParseError::InvalidType),
        }
    }
}

/// The names of a list of name servers as JSON strings, in order.
pub open spec fn names_json(names: Seq<&str>) -> Seq<Json> {
    Seq::new(names.len(), |i: int| Json::String(names[i]@))
}

/// The path `prefix`, a domain, a stroke and the number of a record.
pub open spec fn id_path(prefix: Seq<char>, domain: Seq<char>, id: u64) -> Seq<char> {
    prefix + domain + "/"@ + decimal(id as nat)
}

/// Builds the path `prefix`, a domain, a stroke and the number of a record.
pub fn fmt_id(prefix: &str, domain: &str, id: u64) -> (out: String)
    ensures
        out@ == id_path(prefix@, domain@, id),
{
    let mut out = prefix.to_owned();
    out.append(domain);
    out.append("/");
    push_decimal(&mut out, id);
    out
}

/// The holder of the two keys that every call to the registrar carries.
pub struct Client {
    api_key: String,
    secret_key: String,
}

impl Client {
    /// The API key that this client signs with.
    pub closed spec fn api_key(&self) -> Seq<char> {
        self.api_key@
    }

    /// The secret key that this client signs with.
    pub closed spec fn secret_key(&self) -> Seq<char> {
        self.secret_key@
    }

    /// The body of a signed request: the two keys, then the members of the
    /// payload.
    pub open spec fn signed(&self, payload: Seq<(Seq<char>, Json)>) -> Json {
        Json::Object(
            seq![
                ("apikey"@, Json::String(self.api_key())),
                ("secretapikey"@, Json::String(self.secret_key())),
            ] + payload,
        )
    }

    /// A client that signs with the two keys given.
    pub fn new(api_key: String, secret_key: String) -> (c: Client)
        ensures
            c.api_key() == api_key@,
            c.secret_key() == secret_key@,
    {
        Client { api_key, secret_key }
    }

    /// The signed request that posts the members of `payload` to `endpoint`.
    pub fn request(&self, endpoint: &str, payload: Vec<(String, Value)>) -> (r: Request)
        ensures
            r.url@ == url_of(endpoint@),
            r.body@ == self.signed(members_view(payload@)),
    {
        let mut payload = payload;
        let ghost given = payload@;
        let mut members: Vec<(String, Value)> = Vec::new();
        members.push(("apikey".to_owned(), Value::String(self.api_key.clone())));
        members.push(("secretapikey".to_owned(), Value::String(self.secret_key.clone())));
        members.append(&mut payload);
        proof {
            lemma_object_view(members);
            assert(members_view(members@) =~= seq![
                ("apikey"@, Json::String(self.api_key())),
                ("secretapikey"@, Json::String(self.secret_key())),
            ] + members_view(given));
        }
        api::request(endpoint, Value::Object(members))
    }

    /// The request for a list of records at `path`.
    pub fn request_rec_list(&self, path: &str) -> (r: Request)
        ensures
            r.url@ == url_of(path@),
            r.body@ == self.signed(Seq::empty()),
    {
        let r = self.request(path, Vec::new());
        assert(members_view(Seq::<(String, Value)>::empty()) =~= Seq::empty());
        r
    }

    /// The request that asks the registrar for the caller's address.
    pub fn ping(&self) -> (r: Request)
        ensures
            r.url@ == url_of("/ping"@),
            r.body@ == self.signed(Seq::empty()),
    {
        let r = self.request("/ping", Vec::new());
        assert(members_view(Seq::<(String, Value)>::empty()) =~= Seq::empty());
        r
    }

    /// The request that sets the name servers of `domain`.
    pub fn update_ns(&self, domain: &str, nameservers: &[&str]) -> (r: Request)
        ensures
            r.url@ == url_of("/domain/updateNS/"@ + domain@),
            r.body@ == self.signed(seq![("ns"@, Json::Array(names_json(nameservers@)))]),
    {
        let mut names: Vec<Value> = Vec::new();
        let mut i: usize = 0;
        while i < nameservers.len()
            invariant
                i <= nameservers.len(),
                names.len() == i,
                items_view(names@) == names_json(nameservers@.take(i as int)),
            decreases nameservers.len() - i,
        {
            let ghost before = names@;
            let name = Value::String(nameservers[i].to_owned());
            assert(name@ == Json::String(nameservers@[i as int]@));
            names.push(name);
            i = i + 1;
            assert forall|j: int| 0 <= j < i implies items_view(names@)[j]
                == names_json(nameservers@.take(i as int))[j] by {
                if j < i - 1 {
                    assert(names@[j] == before[j]);
                    assert(items_view(before)[j] == names_json(
                        nameservers@.take(i - 1),
                    )[j]);
                }
            }
            assert(items_view(names@) =~= names_json(nameservers@.take(i as int)));
        }
        assert(nameservers@.take(i as int) =~= nameservers@);
        proof {
            lemma_array_view(names);
        }
        let mut payload: Vec<(String, Value)> = Vec::new();
        payload.push(("ns".to_owned(), Value::Array(names)));
        assert(members_view(payload@) =~= seq![("ns"@, Json::Array(names_json(nameservers@)))]);
        let path = "/domain/updateNS/".to_owned().concat(domain);
        self.request(path.as_str(), payload)
    }

    /// The request that creates a record under `domain`.
    pub fn create_dns(
        &self,
        domain: &str,
        name: Option<&str>,
        typ: RecordType,
        content: &str,
        ttl: Option<u64>,
        prio: Option<u64>,
    ) -> (r: Request)
        ensures
            r.url@ == url_of("/dns/create/"@ + domain@),
            r.body@ == self.signed((Req { name, typ, content, ttl, prio }).members()),
    {
        let req = Req { name, typ, content, ttl, prio };
        let path = "/dns/create/".to_owned().concat(domain);
        self.request(path.as_str(), req.fields())
    }

    /// The request that rewrites the record `id` of `domain`.
    pub fn edit_dns(
        &self,
        domain: &str,
        id: u64,
        name: Option<&str>,
        typ: RecordType,
        content: &str,
        ttl: Option<u64>,
        prio: Option<u64>,
    ) -> (r: Request)
        ensures
            r.url@ == url_of(id_path("/dns/edit/"@, domain@, id)),
            r.body@ == self.signed((Req { name, typ, content, ttl, prio }).members()),
    {
        let req = Req { name, typ, content, ttl, prio };
        let path = fmt_id("/dns/edit/", domain, id);
        self.request(path.as_str(), req.fields())
    }

    /// The request that rewrites the records of one kind under `domain`, or
    /// under a subdomain of it.
    pub fn edit_dns_dst(
        &self,
        domain: &str,
        typ: RecordType,
        subdomain: Option<&str>,
        content: &str,
        ttl: Option<u64>,
        prio: Option<u64>,
    ) -> (r: Request)
        ensures
            r.url@ == url_of(
                dst_path("/dns/editByNameType"@, domain@, typ, opt_str_view(subdomain)),
            ),
            r.body@ == self.signed(
                seq![
                    ("content"@, Json::String(content@)),
                    ("ttl"@, opt_number_json(ttl)),
                    ("prio"@, opt_number_json(prio)),
                ],
            ),
    {
        let mut payload: Vec<(String, Value)> = Vec::new();
        payload.push(("content".to_owned(), Value::String(content.to_owned())));
        payload.push(("ttl".to_owned(), opt_number(ttl)));
        payload.push(("prio".to_owned(), opt_number(prio)));
        assert(members_view(payload@) =~= seq![
            ("content"@, Json::String(content@)),
            ("ttl"@, opt_number_json(ttl)),
            ("prio"@, opt_number_json(prio)),
        ]);
        let path = fmt_dst("/dns/editByNameType", domain, typ, subdomain);
        self.request(path.as_str(), payload)
    }

    /// The request that deletes the record `id` of `domain`.
    pub fn delete_dns(&self, domain: &str, id: u64) -> (r: Request)
        ensures
            r.url@ == url_of(id_path("/dns/delete/"@, domain@, id)),
            r.body@ == self.signed(Seq::empty()),
    {
        let path = fmt_id("/dns/delete/", domain, id);
        self.request_rec_list(path.as_str())
    }

    /// The request that deletes the records of one kind under `domain`, or
    /// under a subdomain of it.
    pub fn delete_dns_dst(&self, domain: &str, typ: RecordType, subdomain: Option<&str>) -> (r:
        Request)
        ensures
            r.url@ == url_of(
                dst_path("/dns/deleteByNameType"@, domain@, typ, opt_str_view(subdomain)),
            ),
            r.body@ == self.signed(Seq::empty()),
    {
        let path = fmt_dst("/dns/deleteByNameType", domain, typ, subdomain);
        self.request_rec_list(path.as_str())
    }

    /// The request that asks for the record `id` of `domain`.
    pub fn retrieve_dns(&self, domain: &str, id: u64) -> (r: Request)
        ensures
            r.url@ == url_of(id_path("/dns/retrieve/"@, domain@, id)),
            r.body@ == self.signed(Seq::empty()),
    {
        let path = fmt_id("/dns/retrieve/", domain, id);
        self.request_rec_list(path.as_str())
    }

    /// The request that asks for the records of one kind under `domain`, or
    /// under a subdomain of it.
    pub fn retrieve_dns_dst(&self, domain: &str, typ: RecordType, subdomain: Option<&str>) -> (r:
        Request)
        ensures
            r.url@ == url_of(
                dst_path("/dns/retrieveByNameType"@, domain@, typ, opt_str_view(subdomain)),
            ),
            r.body@ == self.signed(Seq::empty()),
    {
        let path = fmt_dst("/dns/retrieveByNameType", domain, typ, subdomain);
        self.request_rec_list(path.as_str())
    }

    /// The request that asks for all records of `domain`.
    pub fn list_dns(&self, domain: &str) -> (r: Request)
        ensures
            r.url@ == url_of("/dns/retrieve/"@ + domain@),
            r.body@ == self.signed(Seq::empty()),
    {
        let path = "/dns/retrieve/".to_owned().concat(domain);
        self.request_rec_list(path.as_str())
    }

    /// The request that asks for the certificate bundle of `domain`.
    pub fn retrieve_ssl(&self, domain: &str) -> (r: Request)
        ensures
            r.url@ == url_of("/ssl/retrieve/"@ + domain@),
            r.body@ == self.signed(Seq::empty()),
    {
        let path = "/ssl/retrieve/".to_owned().concat(domain);
        self.request_rec_list(path.as_str())
    }
}

/// The request for the prices of all domain extensions. It carries no keys:
/// its body is null.
pub fn pricing() -> (r: Request)
    ensures
        r.url@ == url_of("/pricing/get"@),
        r.body@ == Json::Null,
{
    api::request("/pricing/get", Value::Null)
}

} // verus!
