//! Turning the body of a service's reply into an address.
use vstd::prelude::*;
use crate::address::{address_of, copy_range, parse_address, trim, trimmed, Address};

verus! {

#[verifier::external_type_specification]
#[verifier::external_body]
pub struct ExValue(serde_json::Value);

/// Whether the bytes are one well-formed JSON document.
pub uninterp spec fn json_valid(body: Seq<u8>) -> bool;

/// Relies on `serde_json::from_slice::<Value>`: it succeeds exactly on well-formed
/// JSON, and whether a text is well-formed depends on the text alone.
#[verifier::external_body]
fn parse_json(body: &[u8]) -> (r: Option<serde_json::Value>)
    ensures
        r is Some <==> json_valid(body@),
{
    serde_json::from_slice::<serde_json::Value>(body).ok()
}

/// Relies on `serde_json::Value::get` with a field name: the member of an object.
#[verifier::external_body]
fn member<'a>(v: &'a serde_json::Value, field: &str) -> (r: Option<&'a serde_json::Value>) {
    v.get(field)
}

/// Relies on `serde_json::Value::as_str`: the text of a JSON string.
pub assume_specification[ serde_json::Value::as_str ](v: &serde_json::Value) -> Option<&str>;

/// Relies on the `Display` impl of `serde_json::Value`: the value written as JSON.
#[verifier::external_body]
fn json_text(v: &serde_json::Value) -> (r: String) {
    v.to_string()
}

/// Why a reply gave no address.
#[derive(Debug)]
pub enum SourceError {
    /// The request failed, or its body was not the JSON it should be.
    RequestError,
    /// The expected field is not in the JSON reply.
    JsonFieldMissing(String),
    /// The field holds something other than a string: its name and the value as JSON.
    JsonFieldMalformed(String, String),
    /// The text is not an IP address literal.
    RawIpMalformed,
}

/// How a service writes the address in its reply.
#[derive(Debug)]
pub enum Decoder {
    /// The body is the address, maybe with whitespace or quotes around it.
    Plain,
    /// The body is a JSON object holding the address as a string under this field.
    Json(String),
}

/// What the JSON object of a reply holds under the expected field.
#[derive(Debug)]
pub enum JsonField {
    Missing,
    /// A value that is not a string, written as JSON.
    NotText(String),
    /// A string, as UTF-8 bytes.
    Text(Vec<u8>),
}

/// The result of parsing a literal: the address, or `RawIpMalformed`.
pub open spec fn literal_result(s: Seq<u8>) -> Result<Address, SourceError> {
    match address_of(s) {
        Some(a) => Ok(a),
        None => Err(SourceError::RawIpMalformed),
    }
}

/// What a plain reply decodes to.
pub open spec fn plain_result(body: Seq<u8>) -> Result<Address, SourceError> {
    literal_result(trimmed(body))
}

/// What a JSON reply decodes to, given what it holds under `field`.
pub open spec fn field_result(field: Seq<char>, found: JsonField, r: Result<Address, SourceError>) -> bool {
    match found {
        JsonField::Missing => r matches Err(SourceError::JsonFieldMissing(f)) && f@ == field,
        JsonField::NotText(raw) => r matches Err(SourceError::JsonFieldMalformed(f, g)) && f@
            == field && g@ == raw@,
        JsonField::Text(t) => r == literal_result(t@),
    }
}

/// What a reply may decode to. A plain reply decodes to exactly one result. A JSON
/// reply that is not well-formed is a `RequestError`; otherwise the result is the
/// one for what the object holds under the field.
pub open spec fn decodes_to(d: Decoder, body: Seq<u8>, r: Result<Address, SourceError>) -> bool {
    match d {
        Decoder::Plain => r == plain_result(body),
        Decoder::Json(field) => if json_valid(body) {
            exists|found: JsonField| field_result(field@, found, r)
        } else {
            r matches Err(SourceError::RequestError)
        },
    }
}

/// Decodes what a JSON reply holds under `field`.
pub fn decode_field(field: &str, found: JsonField) -> (r: Result<Address, SourceError>)
    ensures
        field_result(field@, found, r),
{
    match found {
        JsonField::Missing => Err(SourceError::JsonFieldMissing(field.to_owned())),
        JsonField::NotText(raw) => Err(SourceError::JsonFieldMalformed(field.to_owned(), raw)),
        JsonField::Text(t) => match parse_address(t.as_slice()) {
            Some(a) => Ok(a),
            None => Err(SourceError::RawIpMalformed),
        },
    }
}

/// Decodes a plain reply: strips whitespace and quotes, then parses the literal.
pub fn decode_plain(body: &[u8]) -> (r: Result<Address, SourceError>)
    ensures
        r == plain_result(body@),
{
    let t = trim(body);
    match parse_address(t.as_slice()) {
        Some(a) => Ok(a),
        None => Err(SourceError::RawIpMalformed),
    }
}

impl Decoder {
    /// Turns the body of a reply into an address.
    pub fn decode(&self, body: &[u8]) -> (r: Result<Address, SourceError>)
        ensures
            decodes_to(*self, body@, r),
    {
        match self {
            Decoder::Plain => decode_plain(body),
            Decoder::Json(field) => {
                let v = match parse_json(body) {
                    Some(v) => v,
                    None => return Err(SourceError::RequestError),
                };
                let found = match member(&v, field.as_str()) {
                    None => JsonField::Missing,
                    Some(m) => match m.as_str() {
                        Some(s) => {
                            let b = s.as_bytes();
                            JsonField::Text(copy_range(b, 0, b.len()))
                        },
                        None => JsonField::NotText(json_text(m)),
                    },
                };
                let ghost g = found;
                let r = decode_field(field.as_str(), found);
                assert(field_result(field@, g, r));
                r
            },
        }
    }
}

} // verus!
