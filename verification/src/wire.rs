//! The byte level of the protocol: the outside JSON text codec behind
//! trusted wrappers, and the verified composition that turns requests
//! and responses into framed wire bytes and back.

use vstd::prelude::*;
use crate::value::{Value, ValueSpec};
use crate::request::{Request, RequestV, FormatError, request_value, request_of_value};
use crate::response::{Response, ResponseV, response_value, response_of_value};
use crate::framer::{framed, encode_frame};
use rustc_serialize::json::Json;

verus! {

#[verifier::external_type_specification]
#[verifier::external_body]
pub struct ExJson(rustc_serialize::json::Json);

/// Converts a value of the library to the outside JSON representation,
/// variant for variant. Arrays and objects convert element by element;
/// object fields collect into the outside crate's ordered map.
#[verifier::external_body]
fn to_json(v: &Value) -> rustc_serialize::json::Json {
    match v {
        Value::Null => Json::Null,
        Value::Bool(b) => Json::Boolean(*b),
        Value::Int(i) => Json::I64(*i),
        Value::Str(s) => Json::String(s.clone()),
        Value::Arr(a) => Json::Array(a.iter().map(to_json).collect()),
        Value::Obj(o) => Json::Object(o.iter().map(|p| (p.0.clone(), to_json(&p.1))).collect()),
    }
}

/// Converts the outside JSON representation to a value of the library,
/// variant for variant. A number that is not an integer fitting the
/// library's model refuses the whole value.
#[verifier::external_body]
fn from_json(j: &rustc_serialize::json::Json) -> Option<Value> {
    match j {
        Json::Null => Some(Value::Null),
        Json::Boolean(b) => Some(Value::Bool(*b)),
        Json::I64(i) => Some(Value::Int(*i)),
        Json::U64(u) => i64::try_from(*u).ok().map(Value::Int),
        Json::F64(_) => None,
        Json::String(s) => Some(Value::Str(s.clone())),
        Json::Array(a) => from_json_items(a).map(Value::Arr),
        Json::Object(o) => from_json_fields(o).map(Value::Obj),
    }
}

/// Converts each array element; one unconvertible element refuses the
/// whole array. Trusted conversion beneath the JSON parse wrapper.
#[verifier::external_body]
fn from_json_items(items: &[rustc_serialize::json::Json]) -> Option<Vec<Value>> {
    items.iter().map(from_json).collect()
}

/// Converts each object field, in the outside map's key order; one
/// unconvertible value refuses the whole object.
#[verifier::external_body]
fn from_json_fields(fields: &rustc_serialize::json::Object) -> Option<Vec<(String, Value)>> {
    fields.iter().map(|p| Some((p.0.clone(), from_json(p.1)?))).collect()
}

/// The JSON text, as bytes, that the outside encoder produces for a
/// value: a function of the value alone.
pub uninterp spec fn json_bytes_of(v: ValueSpec) -> Seq<u8>;

/// The value, if any, that the outside parser reads from bytes: a
/// function of the bytes alone.
pub uninterp spec fn json_value_of(s: Seq<u8>) -> Option<ValueSpec>;

/// Relies on the JSON text encoder of rustc_serialize (the `Display`
/// implementation of its `Json` type): the text it writes is determined
/// by the value alone, object keys emitted in sorted order.
#[verifier::external_body]
pub fn encode_value(v: &Value) -> (r: Vec<u8>)
    ensures
        r@ == json_bytes_of(v.deep_view()),
{
    format!("{}", to_json(v)).into_bytes()
}

/// Relies on the JSON text parser of rustc_serialize (`Json::from_str`):
/// what it reads is determined by the bytes alone. Bytes that are not
/// UTF-8, are not one JSON value, or hold a number outside the library's
/// integer model, give nothing.
#[verifier::external_body]
pub fn decode_value(bytes: &[u8]) -> (r: Option<Value>)
    ensures
        r.deep_view() == json_value_of(bytes@),
{
    match core::str::from_utf8(bytes).ok().and_then(
        |s| rustc_serialize::json::Json::from_str(s).ok(),
    ) {
        Some(j) => from_json(&j),
        None => None,
    }
}

/// The request, if any, that one frame's bytes denote: parsed as JSON
/// text, then read as a request object.
pub open spec fn parse_request(s: Seq<u8>) -> Option<RequestV> {
    match json_value_of(s) {
        Some(v) => request_of_value(v),
        None => None,
    }
}

/// The response, if any, that one frame's bytes denote: parsed as JSON
/// text, then read as a response object.
pub open spec fn parse_response(s: Seq<u8>) -> Option<ResponseV> {
    match json_value_of(s) {
        Some(v) => response_of_value(v),
        None => None,
    }
}

/// Encode a request for the wire: its JSON text, then the terminator.
pub fn encode_request(req: Request) -> (r: Vec<u8>)
    ensures
        r@ == framed(json_bytes_of(request_value(req@))),
{
    let v = req.to_value();
    let bytes = encode_value(&v);
    encode_frame(bytes.as_slice())
}

/// Encode a response for the wire: its JSON text, then the terminator.
pub fn encode_response(resp: Response) -> (r: Vec<u8>)
    ensures
        r@ == framed(json_bytes_of(response_value(resp@))),
{
    let v = resp.to_value();
    let bytes = encode_value(&v);
    encode_frame(bytes.as_slice())
}

/// Decode one frame's bytes as a request. `Err(true)` says the bytes
/// were not a JSON value at all; `Err(false)` says they were JSON of the
/// wrong shape.
pub fn decode_request_segment(seg: &[u8]) -> (r: Result<Request, bool>)
    ensures
        (match r {
            Ok(req) => parse_request(seg@) == Some(req@),
            Err(invalid) => parse_request(seg@) is None && invalid == (json_value_of(seg@)
                is None),
        }),
{
    match decode_value(seg) {
        Some(v) => match Request::from_value(v) {
            Ok(req) => Ok(req),
            Err(FormatError) => Err(false),
        },
        None => Err(true),
    }
}

/// Decode one frame's bytes as a response.
pub fn decode_response_segment(seg: &[u8]) -> (r: Result<Response, FormatError>)
    ensures
        (match r {
            Ok(resp) => parse_response(seg@) == Some(resp@),
            Err(_) => parse_response(seg@) is None,
        }),
{
    match decode_value(seg) {
        Some(v) => Response::from_value(v),
        None => Err(FormatError),
    }
}

} // verus!
