//! The server's decision core: the handler registry keyed by topic, and
//! the dispatch policy that turns each decoded request and handler
//! outcome into the response owed on the wire, if any. The sockets and
//! threads that carry bytes to and from this core live outside the
//! library.

use vstd::prelude::*;
use crate::table::StrMap;
use crate::value::Value;
use crate::request::Request;
use crate::response::{
    Response,
    ResponseV,
    Success,
    SuccessV,
    Error,
    ErrorV,
    ErrorDescription,
    ErrorDescriptionV,
    Id,
    IdV,
};
use crate::wire::{parse_request, json_value_of, decode_request_segment};

verus! {

/// What can go wrong on the server's side of a connection.
#[derive(Debug, PartialEq)]
pub enum ServerError {
    ParseError(String),
    IoError(String),
    IdMismatchError,
    UnknownError,
}

/// What a handler hands back when it answers: the result value, or what
/// went wrong.
pub type HandlerResult = Result<Value, ErrorDescription>;

/// The wire-level error code for a topic nobody registered, also used
/// for requests that could not be read at all.
pub const METHOD_NOT_FOUND: i64 = -32601;

/// The server's registry: at most one handler per topic. The handler
/// type is the embedding program's; the registry never calls one.
pub struct Server<H> {
    handlers: StrMap<H>,
}

impl<H> Server<H> {
    /// The topics registered so far, each with its handler.
    pub closed spec fn topics(self) -> Map<Seq<char>, H> {
        self.handlers.as_map()
    }

    /// The registry's internal invariant.
    pub closed spec fn wf(self) -> bool {
        self.handlers.wf()
    }

    /// A server with no handlers registered.
    pub fn new() -> (r: Server<H>)
        ensures
            r.wf(),
            r.topics() == Map::<Seq<char>, H>::empty(),
    {
        Server { handlers: StrMap::new() }
    }

    /// Register `handler` for `topic`. A second registration for the
    /// same topic silently replaces the first.
    pub fn handle(&mut self, topic: &str, handler: H)
        requires
            old(self).wf(),
        ensures
            final(self).wf(),
            final(self).topics() == old(self).topics().insert(topic@, handler),
    {
        self.handlers.insert(topic.to_owned(), handler)
    }

    /// The handler registered for `topic`, if any.
    pub fn find_handler(&self, topic: &String) -> (r: Option<&H>)
        requires
            self.wf(),
        ensures
            (match r {
                Some(h) => self.topics().contains_key(topic@) && *h == self.topics()[topic@],
                None => !self.topics().contains_key(topic@),
            }),
    {
        self.handlers.get(topic)
    }
}

/// The response owed for a handler's outcome on the request with
/// identifier `id`: a success response for `Ok`, an error response for
/// `Err`, and nothing at all when the handler chose not to answer.
pub fn respond_to_outcome(id: String, outcome: Option<HandlerResult>) -> (r: Option<Response>)
    ensures
        (match outcome {
            Some(Ok(v)) => r matches Some(resp) && resp@ == ResponseV::Success(
                SuccessV { id: IdV::Exists(id@), result: crate::value::view_value(v) },
            ),
            Some(Err(d)) => r matches Some(resp) && resp@ == ResponseV::Error(
                ErrorV { id: IdV::Exists(id@), error: d@ },
            ),
            None => r is None,
        }),
{
    match outcome {
        Some(Ok(v)) => Some(Response::Success(Success { id: Id::Exists(id), result: v })),
        Some(Err(d)) => Some(Response::Error(Error { id: Id::Exists(id), error: d })),
        None => None,
    }
}

/// The error response owed when no handler is registered for a
/// request's topic: code `-32601`, message `Method not found`, the
/// request's identifier echoed.
pub fn method_not_found(id: String) -> (r: Response)
    ensures
        r@ == ResponseV::Error(
            ErrorV {
                id: IdV::Exists(id@),
                error: ErrorDescriptionV {
                    code: METHOD_NOT_FOUND as int,
                    message: "Method not found"@,
                },
            },
        ),
{
    Response::Error(
        Error {
            id: Id::Exists(id),
            error: ErrorDescription {
                code: METHOD_NOT_FOUND,
                message: "Method not found".to_owned(),
            },
        },
    )
}

/// The error response owed when an inbound message could not be read as
/// a request at all: no identifier to echo, the same code the wire
/// reserves for unknown topics, and a message describing the failure.
pub fn malformed_reply(message: String) -> (r: Response)
    ensures
        r@ == ResponseV::Error(
            ErrorV {
                id: IdV::Empty,
                error: ErrorDescriptionV { code: METHOD_NOT_FOUND as int, message: message@ },
            },
        ),
{
    Response::Error(
        Error {
            id: Id::Empty,
            error: ErrorDescription { code: METHOD_NOT_FOUND, message },
        },
    )
}

/// The message a failed read is described with on the wire: bytes that
/// were not JSON at all, against JSON of the wrong shape.
pub open spec fn read_failure_message(s: Seq<u8>) -> Seq<char> {
    if json_value_of(s) is None {
        "Invalid"@
    } else {
        "Malformed"@
    }
}

/// Read one frame's bytes as a request, or produce the error response
/// the sender is owed instead.
pub fn read_request_segment(seg: &[u8]) -> (r: Result<Request, Response>)
    ensures
        (match r {
            Ok(req) => parse_request(seg@) == Some(req@),
            Err(reply) => parse_request(seg@) is None && reply@ == ResponseV::Error(
                ErrorV {
                    id: IdV::Empty,
                    error: ErrorDescriptionV {
                        code: METHOD_NOT_FOUND as int,
                        message: read_failure_message(seg@),
                    },
                },
            ),
        }),
{
    match decode_request_segment(seg) {
        Ok(req) => Ok(req),
        Err(invalid) => {
            let message: String = if invalid {
                "Invalid".to_owned()
            } else {
                "Malformed".to_owned()
            };
            Err(malformed_reply(message))
        },
    }
}

} // verus!
