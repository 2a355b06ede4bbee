//! The envelope that wraps every answer of the registrar, and the shape of
//! a request to it.

use vstd::prelude::*;
use crate::json::{find, lemma_object_view, member, Json, Value};
use crate::parse::{
    field, field_of, opt_text, opt_text_of, optional_of, outcome, Fault, ParseError,
};
use crate::text::str_eq;
use crate::{Error, Failure};

verus! {

/// Whether the registrar did what was asked.
#[derive(Debug, Clone, Copy, PartialEq, Eq, Structural)]
pub enum Status {
    Success,
    Error,
}

/// An answer of the registrar, taken apart: its status, its message, and
/// its payload where one could be read.
pub struct Response<T> {
    pub status: Status,
    pub message: Option<String>,
    pub payload: Option<T>,
}

impl<T> Response<T> {
    /// What the answer means to the caller. A success gives its payload,
    /// and without one it is unexpected; an error gives the registrar's
    /// message as it came, and without one it is unexpected too.
    pub fn into(self) -> (r: Result<T, Error>)
        ensures
            r == match self.status {
                Status::Success => match self.payload {
                    Some(p) => Ok::<T, Error>(p),
                    None => Err::<T, Error>(Error::UnexpectedError),
                },
                Status::Error => match self.message {
                    Some(m) => Err::<T, Error>(Error::ApiError(m)),
                    None => Err::<T, Error>(Error::UnexpectedError),
                },
            },
    {
        match self.status {
            Status::Success => match self.payload {
                Some(p) => Ok(p),
                None => Err(Error::UnexpectedError),
            },
            Status::Error => match self.message {
                Some(m) => Err(Error::ApiError(m)),
                None => Err(Error::UnexpectedError),
            },
        }
    }
}

/// The status that `j` names: `"SUCCESS"` or `"ERROR"`, in capitals.
pub open spec fn status_of(j: Json) -> Result<Status, Fault> {
    match j {
        Json::String(s) => if s == "SUCCESS"@ {
            Ok(Status::Success)
        } else if s == "ERROR"@ {
            Ok(Status::Error)
        } else {
            Err(Fault::InvalidValue(s))
        },
        _ => Err(Fault::InvalidType),
    }
}

/// Reads a status.
pub fn status(v: &Value) -> (r: Result<Status, ParseError>)
    ensures
        outcome(r) == status_of(v@),
{
    match v {
        Value::String(s) => {
            if str_eq(s.as_str(), "SUCCESS") {
                Ok(Status::Success)
            } else if str_eq(s.as_str(), "ERROR") {
                Ok(Status::Error)
            } else {
                Err(ParseError::InvalidValue(s.clone()))
            }
        },
        _ => Err(ParseError::InvalidType),
    }
}

/// The status and the message of the envelope `j`: an object with a member
/// `status`, and a member `message` that is a string, null or left out.
pub open spec fn envelope_of(j: Json) -> Result<(Status, Option<Seq<char>>), Fault> {
    match j {
        Json::Object(ms) => match field_of(ms, "status"@) {
            Err(f) => Err(f),
            Ok(s) => match status_of(s) {
                Err(f) => Err(f),
                Ok(status) => match opt_text_of(optional_of(ms, "message"@)) {
                    Err(f) => Err(f),
                    Ok(message) => Ok((status, message)),
                },
            },
        },
        _ => Err(Fault::InvalidType),
    }
}

/// The view of a string that may be left out.
pub open spec fn opt_string_view(s: Option<String>) -> Option<Seq<char>> {
    match s {
        Some(t) => Some(t@),
        None => None,
    }
}

/// Reads the status and the message of an envelope.
pub fn envelope(body: &Value) -> (r: Result<(Status, Option<String>), ParseError>)
    ensures
        match r {
            Ok((status, message)) => envelope_of(body@) == Ok::<
                (Status, Option<Seq<char>>),
                Fault,
            >((status, opt_string_view(message))),
            Err(e) => envelope_of(body@) == Err::<(Status, Option<Seq<char>>), Fault>(e@),
        },
{
    match body {
        Value::Object(members) => {
            proof {
                lemma_object_view(*members);
            }
            let st = status(field(members, "status")?)?;
            let message = match find(members, "message") {
                Some(m) => opt_text(m)?,
                None => None,
            };
            Ok((st, message))
        },
        _ => Err(ParseError::InvalidType),
    }
}

/// What an answer means to the caller, given the payload that could be read
/// from it, if any. An answer that is no envelope is a parse error. An
/// envelope that reports success gives the payload, and is unexpected
/// without one; an envelope that reports an error gives the registrar's
/// message, and is unexpected without one.
pub open spec fn answer_of<T>(j: Json, payload: Option<T>) -> Result<T, Failure> {
    match envelope_of(j) {
        Err(f) => Err(Failure::ParseError(f)),
        Ok((Status::Success, _)) => match payload {
            Some(p) => Ok(p),
            None => Err(Failure::UnexpectedError),
        },
        Ok((Status::Error, message)) => match message {
            Some(m) => Err(Failure::ApiError(m)),
            None => Err(Failure::UnexpectedError),
        },
    }
}

/// An envelope that reports an error with a message gives that message, as
/// it came, whatever else the answer holds.
pub proof fn lemma_error_gives_message<T>(
    ms: Seq<(Seq<char>, Json)>,
    message: Seq<char>,
    payload: Option<T>,
)
    requires
        member(ms, "status"@) == Some(Json::String("ERROR"@)),
        member(ms, "message"@) == Some(Json::String(message)),
    ensures
        answer_of(Json::Object(ms), payload) == Err::<T, Failure>(Failure::ApiError(message)),
{
    reveal_strlit("ERROR");
    reveal_strlit("SUCCESS");
    assert("ERROR"@.len() == 5 && "SUCCESS"@.len() == 7);
}

/// An envelope that reports an error without a message is unexpected.
pub proof fn lemma_error_without_message<T>(ms: Seq<(Seq<char>, Json)>, payload: Option<T>)
    requires
        member(ms, "status"@) == Some(Json::String("ERROR"@)),
        member(ms, "message"@) is None || member(ms, "message"@) == Some(Json::Null),
    ensures
        answer_of(Json::Object(ms), payload) == Err::<T, Failure>(Failure::UnexpectedError),
{
    reveal_strlit("ERROR");
    reveal_strlit("SUCCESS");
    assert("ERROR"@.len() == 5 && "SUCCESS"@.len() == 7);
}

/// An envelope that reports success gives the payload that was read, and is
/// unexpected where none could be read: it never stands for a value that
/// was not sent.
pub proof fn lemma_success_needs_payload<T>(ms: Seq<(Seq<char>, Json)>, payload: Option<T>)
    requires
        member(ms, "status"@) == Some(Json::String("SUCCESS"@)),
        opt_text_of(optional_of(ms, "message"@)) is Ok,
    ensures
        answer_of(Json::Object(ms), payload) == match payload {
            Some(p) => Ok::<T, Failure>(p),
            None => Err::<T, Failure>(Failure::UnexpectedError),
        },
{
}

/// The address that a path of the API stands for.
pub open spec fn url_of(path: Seq<char>) -> Seq<char> {
    "https://porkbun.com/api/json/v3"@ + path
}

/// The address to which a request for `path` is posted.
pub fn url(path: &str) -> (out: String)
    ensures
        out@ == url_of(path@),
{
    "https://porkbun.com/api/json/v3".to_owned().concat(path)
}

/// A request as it is to be posted: where to, and the JSON body.
#[derive(Debug)]
pub struct Request {
    pub url: String,
    pub body: Value,
}

/// The request that posts `payload` to `endpoint`.
pub fn request(endpoint: &str, payload: Value) -> (r: Request)
    ensures
        r.url@ == url_of(endpoint@),
        r.body == payload,
{
    Request { url: url(endpoint), body: payload }
}

} // verus!
