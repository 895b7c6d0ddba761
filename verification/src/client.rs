//! The client's decision core: building a call with a fresh correlation
//! identifier, reading response frames for the background reader, and
//! checking that the response a waiter receives really answers its own
//! call. The socket, the reader thread and the blocking channel live
//! outside the library.

use vstd::prelude::*;
use crate::value::Value;
use crate::request::Request;
use crate::response::{Response, IdV, response_id};
use crate::wire::{parse_response, decode_response_segment};

verus! {

/// What can go wrong on the client's side of a call.
#[derive(Debug, PartialEq)]
pub enum ClientError {
    ParseError(String),
    IoError(String),
    IdMismatchError,
    UnknownError,
}

/// Relies on uuid::Uuid::new_v4 and its hyphenated `Display` form: a
/// fresh random version-4 identifier rendered as 36 characters. Nothing
/// more is assumed of the value: it depends on chance.
#[verifier::external_body]
pub fn fresh_id() -> (r: String)
    ensures
        r@.len() == 36,
{
    uuid::Uuid::new_v4().to_string()
}

/// Build the request for one call: a freshly generated correlation
/// identifier, the caller's topic and parameters.
pub fn new_call(topic: String, params: Vec<Value>) -> (r: Request)
    ensures
        r@.topic == topic@,
        r@.params == params.deep_view(),
        r@.id.len() == 36,
{
    let id = fresh_id();
    Request::new(id, topic, params)
}

/// Read one frame's bytes for the reader loop: the response it carries
/// together with the identifier to resolve it under. Nothing comes back
/// for bytes that decode to no response, or for a response without an
/// identifier: the reader drops those and reads on.
pub fn read_response_segment(seg: &[u8]) -> (r: Option<(String, Response)>)
    ensures
        (match r {
            Some(p) => parse_response(seg@) == Some(p.1@) && response_id(p.1@) == IdV::Exists(
                p.0@,
            ),
            None => (match parse_response(seg@) {
                Some(rv) => response_id(rv) is Empty,
                None => true,
            }),
        }),
{
    match decode_response_segment(seg) {
        Ok(resp) => match resp.get_id() {
            Some(id) => Some((id, resp)),
            None => None,
        },
        Err(_) => None,
    }
}

/// Hand a waiter the response resolved under its identifier, checking
/// that the identifiers really agree: a disagreement is an internal
/// invariant violation, reported as `IdMismatchError` rather than
/// silently accepted.
pub fn check_correlated(expected: &String, resp: Response) -> (r: Result<Response, ClientError>)
    ensures
        (match r {
            Ok(out) => out == resp && response_id(resp@) == IdV::Exists(expected@),
            Err(e) => e == ClientError::IdMismatchError && response_id(resp@) != IdV::Exists(
                expected@,
            ),
        }),
{
    let matches_expected: bool = match resp.get_id() {
        Some(id) => id == *expected,
        None => false,
    };
    if matches_expected {
        Ok(resp)
    } else {
        Err(ClientError::IdMismatchError)
    }
}

} // verus!
