//! JSON documents in requests and responses.

use vstd::prelude::*;

use axum::http::{HeaderMap, HeaderValue};

use crate::headers;
use crate::media;
use crate::media::is_json_content_type;
use crate::text::{append, chars_of, text_of};

verus! {

pub const JSON_TYPE: &'static str = "application/json";

pub const PLAIN_TYPE: &'static str = "text/plain; charset=utf-8";

pub const MISSING_TYPE_MESSAGE: &'static str =
    "expected request with `Content-Type: application/json` or `application/*+json`";

pub const BODY_MESSAGE: &'static str = "failed to read JSON body: ";

pub const INVALID_MESSAGE: &'static str = "invalid JSON: ";

/// A value that is taken from a JSON request or given as a JSON response.
#[derive(Clone, Copy, Debug, Default)]
#[must_use]
pub struct SonicJson<T>(pub T);

/// Rejection of a request that was to hold a JSON document.
#[derive(Clone, Debug, Eq, PartialEq)]
pub enum SonicJsonRejection {
    /// The request has no JSON-compatible `Content-Type`.
    MissingContentType,
    /// The body of the request could not be read.
    Body(String),
    /// The body of the request could not be parsed.
    InvalidJson(String),
}

impl SonicJsonRejection {
    /// The message of a rejection.
    pub open spec fn text(&self) -> Seq<char> {
        match self {
            SonicJsonRejection::MissingContentType => MISSING_TYPE_MESSAGE@,
            SonicJsonRejection::Body(error) => BODY_MESSAGE@ + error@,
            SonicJsonRejection::InvalidJson(error) => INVALID_MESSAGE@ + error@,
        }
    }

    /// The status of a response to a rejected request.
    pub fn status(&self) -> (code: u16)
        ensures
            code == (if self is MissingContentType {
                415u16
            } else {
                400u16
            }),
    {
        match self {
            SonicJsonRejection::MissingContentType => 415,
            SonicJsonRejection::Body(_) => 400,
            SonicJsonRejection::InvalidJson(_) => 400,
        }
    }

    /// The message of a response to a rejected request.
    pub fn message(&self) -> (message: String)
        ensures
            message@ == self.text(),
    {
        match self {
            SonicJsonRejection::MissingContentType => MISSING_TYPE_MESSAGE.to_owned(),
            SonicJsonRejection::Body(error) => joined(BODY_MESSAGE, error.as_str()),
            SonicJsonRejection::InvalidJson(error) => joined(INVALID_MESSAGE, error.as_str()),
        }
    }

    /// The response to a rejected request.
    pub fn reply(&self) -> (reply: JsonReply)
        ensures
            reply.status == (if self is MissingContentType {
                415u16
            } else {
                400u16
            }),
            reply.content_type@ == PLAIN_TYPE@,
            reply.body matches JsonBody::Message(message) && message@ == self.text(),
    {
        JsonReply {
            status: self.status(),
            content_type: PLAIN_TYPE.to_owned(),
            body: JsonBody::Message(self.message()),
        }
    }
}

fn joined(head: &str, tail: &str) -> (whole: String)
    ensures
        whole@ == head@ + tail@,
{
    let mut chars = chars_of(head);
    let more = chars_of(tail);
    append(&mut chars, more.as_slice());
    text_of(chars.as_slice())
}

/// Body of a response.
#[derive(Debug)]
pub enum JsonBody {
    /// A JSON document.
    Document(Vec<u8>),
    /// A plain message.
    Message(String),
}

/// A response: status, type and body.
#[derive(Debug)]
pub struct JsonReply {
    pub status: u16,
    pub content_type: String,
    pub body: JsonBody,
}

/// The response for a document that was serialized, or could not be.
pub fn json_reply(serialized: Result<Vec<u8>, String>) -> (reply: JsonReply)
    ensures
        match serialized {
            Ok(bytes) => {
                &&& reply.status == 200
                &&& reply.content_type@ == JSON_TYPE@
                &&& reply.body == JsonBody::Document(bytes)
            },
            Err(error) => {
                &&& reply.status == 500
                &&& reply.content_type@ == PLAIN_TYPE@
                &&& reply.body == JsonBody::Message(error)
            },
        },
{
    match serialized {
        Ok(bytes) => JsonReply {
            status: 200,
            content_type: JSON_TYPE.to_owned(),
            body: JsonBody::Document(bytes),
        },
        Err(error) => JsonReply {
            status: 500,
            content_type: PLAIN_TYPE.to_owned(),
            body: JsonBody::Message(error),
        },
    }
}

/// Accepts a request whose headers tell that its body is a JSON document.
pub fn check_type(headers: &HeaderMap<HeaderValue>) -> (checked: Result<(), SonicJsonRejection>)
    ensures
        match checked {
            Ok(_) => media::tells_json(headers::value_of(*headers, media::CONTENT_TYPE@)),
            Err(rejection) => {
                &&& !media::tells_json(headers::value_of(*headers, media::CONTENT_TYPE@))
                &&& rejection is MissingContentType
            },
        },
{
    if is_json_content_type(headers) {
        Ok(())
    } else {
        Err(SonicJsonRejection::MissingContentType)
    }
}

impl<T> SonicJson<T> {
    /// The value of a body that was read and then parsed, each with its own
    /// error.
    pub fn from_body(body: Result<Result<T, String>, String>) -> (value: Result<
        Self,
        SonicJsonRejection,
    >)
        ensures
            value == (match body {
                Ok(Ok(parsed)) => Ok::<SonicJson<T>, SonicJsonRejection>(SonicJson(parsed)),
                Ok(Err(error)) => Err(SonicJsonRejection::InvalidJson(error)),
                Err(error) => Err(SonicJsonRejection::Body(error)),
            }),
    {
        match body {
            Ok(parsed) => Self::from_parsed(parsed),
            Err(error) => Err(SonicJsonRejection::Body(error)),
        }
    }

    /// The value of a document that was parsed, or could not be.
    pub fn from_parsed(parsed: Result<T, String>) -> (value: Result<Self, SonicJsonRejection>)
        ensures
            value == (match parsed {
                Ok(value) => Ok::<SonicJson<T>, SonicJsonRejection>(SonicJson(value)),
                Err(error) => Err(SonicJsonRejection::InvalidJson(error)),
            }),
    {
        match parsed {
            Ok(value) => Ok(SonicJson(value)),
            Err(error) => Err(SonicJsonRejection::InvalidJson(error)),
        }
    }
}

impl<T> From<T> for SonicJson<T> {
    fn from(value: T) -> (json: Self) {
        SonicJson(value)
    }
}

impl<T> vstd::std_specs::convert::FromSpecImpl<T> for SonicJson<T> {
    open spec fn obeys_from_spec() -> bool {
        true
    }

    open spec fn from_spec(value: T) -> Self {
        SonicJson(value)
    }
}

impl<T> std::ops::Deref for SonicJson<T> {
    type Target = T;

    fn deref(&self) -> (value: &T)
        ensures
            *value == self.0,
    {
        &self.0
    }
}

} // verus!
