//! The response half of the message model: a success carrying a result
//! or an error carrying a code and message, each correlated to its
//! request by an identifier that may be absent, and their JSON object
//! shapes on the wire.

use vstd::prelude::*;
use crate::value::{
    Value,
    ValueSpec,
    view_value,
    obj_get,
    take3,
    take2,
    lemma_members_deep,
};

verus! {

/// A response's correlation identifier: present when the peer could read
/// one off the request, absent when it could not.
#[derive(Debug, Clone, PartialEq)]
pub enum Id {
    Exists(String),
    Empty,
}

/// The mathematical shape of a correlation identifier.
pub enum IdV {
    Exists(Seq<char>),
    Empty,
}

impl View for Id {
    type V = IdV;

    open spec fn view(&self) -> IdV {
        match self {
            Id::Exists(s) => IdV::Exists(s@),
            Id::Empty => IdV::Empty,
        }
    }
}

/// What went wrong with a call, as sent over the wire: a numeric code
/// and a human-readable message.
#[derive(Debug, Clone, PartialEq)]
pub struct ErrorDescription {
    pub code: i64,
    pub message: String,
}

/// The mathematical shape of an error description.
pub struct ErrorDescriptionV {
    pub code: int,
    pub message: Seq<char>,
}

impl View for ErrorDescription {
    type V = ErrorDescriptionV;

    open spec fn view(&self) -> ErrorDescriptionV {
        ErrorDescriptionV { code: self.code as int, message: self.message@ }
    }
}

/// A successful outcome: the handler's result, correlated by `id`.
#[derive(Debug, PartialEq)]
pub struct Success {
    pub id: Id,
    pub result: Value,
}

/// The mathematical shape of a success response.
pub struct SuccessV {
    pub id: IdV,
    pub result: ValueSpec,
}

impl View for Success {
    type V = SuccessV;

    open spec fn view(&self) -> SuccessV {
        SuccessV { id: self.id@, result: view_value(self.result) }
    }
}

/// A failed outcome: what went wrong, correlated by `id`.
#[derive(Debug, PartialEq)]
pub struct Error {
    pub id: Id,
    pub error: ErrorDescription,
}

/// The mathematical shape of an error response.
pub struct ErrorV {
    pub id: IdV,
    pub error: ErrorDescriptionV,
}

impl View for Error {
    type V = ErrorV;

    open spec fn view(&self) -> ErrorV {
        ErrorV { id: self.id@, error: self.error@ }
    }
}

/// A response: either a success or an error.
#[derive(Debug, PartialEq)]
pub enum Response {
    Success(Success),
    Error(Error),
}

/// The mathematical shape of a response.
pub enum ResponseV {
    Success(SuccessV),
    Error(ErrorV),
}

impl View for Response {
    type V = ResponseV;

    open spec fn view(&self) -> ResponseV {
        match self {
            Response::Success(s) => ResponseV::Success(s@),
            Response::Error(e) => ResponseV::Error(e@),
        }
    }
}

/// The correlation identifier a response carries.
pub open spec fn response_id(r: ResponseV) -> IdV {
    match r {
        ResponseV::Success(s) => s.id,
        ResponseV::Error(e) => e.id,
    }
}

/// The JSON value an identifier becomes: its string, or null when
/// absent.
pub open spec fn id_value(id: IdV) -> ValueSpec {
    match id {
        IdV::Exists(s) => ValueSpec::Str(s),
        IdV::Empty => ValueSpec::Null,
    }
}

/// The JSON object a response becomes on the wire.
pub open spec fn response_value(r: ResponseV) -> ValueSpec {
    match r {
        ResponseV::Success(s) => ValueSpec::Obj(
            seq![("id"@, id_value(s.id)), ("result"@, s.result)],
        ),
        ResponseV::Error(e) => ValueSpec::Obj(
            seq![
                (
                    "error"@,
                    ValueSpec::Obj(
                        seq![
                            ("code"@, ValueSpec::Int(e.error.code)),
                            ("message"@, ValueSpec::Str(e.error.message)),
                        ],
                    ),
                ),
                ("id"@, id_value(e.id)),
            ],
        ),
    }
}

/// The identifier a response object's `id` field denotes: absent when
/// the field is missing or null, present when it is a string, and
/// unreadable otherwise.
pub open spec fn id_of_fields(fields: Seq<(Seq<char>, ValueSpec)>) -> Option<IdV> {
    match obj_get(fields, "id"@) {
        None => Some(IdV::Empty),
        Some(ValueSpec::Null) => Some(IdV::Empty),
        Some(ValueSpec::Str(s)) => Some(IdV::Exists(s)),
        Some(_) => None,
    }
}

/// The error description an `error` field's object denotes, if it has an
/// integer `code` and a string `message`.
pub open spec fn error_of_fields(fields: Seq<(Seq<char>, ValueSpec)>) -> Option<ErrorDescriptionV> {
    match (obj_get(fields, "code"@), obj_get(fields, "message"@)) {
        (Some(ValueSpec::Int(code)), Some(ValueSpec::Str(message))) => Some(
            ErrorDescriptionV { code, message },
        ),
        _ => None,
    }
}

/// The response a JSON value denotes: an object with a readable `id`
/// and either an `error` object (an error response) or, failing an
/// `error` field, a `result` field (a success response).
pub open spec fn response_of_value(v: ValueSpec) -> Option<ResponseV> {
    match v {
        ValueSpec::Obj(fields) => match id_of_fields(fields) {
            Some(id) => match obj_get(fields, "error"@) {
                Some(ValueSpec::Obj(ef)) => match error_of_fields(ef) {
                    Some(error) => Some(ResponseV::Error(ErrorV { id, error })),
                    None => None,
                },
                Some(_) => None,
                None => match obj_get(fields, "result"@) {
                    Some(result) => Some(ResponseV::Success(SuccessV { id, result })),
                    None => None,
                },
            },
            None => None,
        },
        _ => None,
    }
}

/// Reading back the JSON object a response was turned into recovers the
/// response exactly; nothing is lost on the wire's value level.
pub proof fn lemma_response_round_trip(r: ResponseV)
    ensures
        response_of_value(response_value(r)) == Some(r),
{
    reveal_with_fuel(obj_get, 5);
    reveal_strlit("id");
    reveal_strlit("result");
    reveal_strlit("error");
    reveal_strlit("code");
    reveal_strlit("message");
    assert("id"@.len() == 2 && "result"@.len() == 6 && "error"@.len() == 5 && "code"@.len() == 4
        && "message"@.len() == 7);
    assert("id"@[0] == 'i' && "error"@[0] == 'e' && "result"@[0] == 'r');
    match r {
        ResponseV::Success(s) => {
            let fields = seq![("id"@, id_value(s.id)), ("result"@, s.result)];
            assert(fields.skip(1) =~= seq![("result"@, s.result)]);
            assert(obj_get(fields, "id"@) == Some(id_value(s.id)));
            assert(obj_get(fields, "error"@) is None);
            assert(obj_get(fields, "result"@) == Some(s.result));
            assert(id_of_fields(fields) == Some(s.id));
        },
        ResponseV::Error(e) => {
            let ef = seq![
                ("code"@, ValueSpec::Int(e.error.code)),
                ("message"@, ValueSpec::Str(e.error.message)),
            ];
            let fields = seq![("error"@, ValueSpec::Obj(ef)), ("id"@, id_value(e.id))];
            assert(fields.skip(1) =~= seq![("id"@, id_value(e.id))]);
            assert(ef.skip(1) =~= seq![("message"@, ValueSpec::Str(e.error.message))]);
            assert(obj_get(fields, "error"@) == Some(ValueSpec::Obj(ef)));
            assert(obj_get(fields, "id"@) == Some(id_value(e.id)));
            assert(obj_get(ef, "code"@) == Some(ValueSpec::Int(e.error.code)));
            assert(obj_get(ef, "message"@) == Some(ValueSpec::Str(e.error.message)));
            assert(id_of_fields(fields) == Some(e.id));
            assert(error_of_fields(ef) == Some(e.error));
        },
    }
}

impl Id {
    /// The JSON value this identifier becomes on the wire.
    pub fn to_value(self) -> (r: Value)
        ensures
            view_value(r) == id_value(self@),
    {
        match self {
            Id::Exists(s) => Value::Str(s),
            Id::Empty => Value::Null,
        }
    }
}

impl Response {
    /// The correlation identifier this response carries, if present.
    pub fn get_id(&self) -> (r: Option<String>)
        ensures
            (match (response_id(self@), r) {
                (IdV::Exists(s), Some(rs)) => rs@ == s,
                (IdV::Empty, None) => true,
                _ => false,
            }),
    {
        match self {
            Response::Success(s) => match &s.id {
                Id::Exists(v) => Some(v.clone()),
                Id::Empty => None,
            },
            Response::Error(e) => match &e.id {
                Id::Exists(v) => Some(v.clone()),
                Id::Empty => None,
            },
        }
    }

    /// The JSON object this response becomes on the wire.
    pub fn to_value(self) -> (r: Value)
        ensures
            view_value(r) == response_value(self@),
    {
        match self {
            Response::Success(s) => {
                let ghost gv = s@;
                let mut fields: Vec<(String, Value)> = Vec::new();
                fields.push(("id".to_owned(), s.id.to_value()));
                fields.push(("result".to_owned(), s.result));
                proof {
                    assert(crate::value::view_members(fields@) =~= (match response_value(
                        ResponseV::Success(gv),
                    ) {
                        ValueSpec::Obj(f) => f,
                        _ => Seq::empty(),
                    }));
                }
                Value::Obj(fields)
            },
            Response::Error(e) => {
                let ghost gv = e@;
                let mut ef: Vec<(String, Value)> = Vec::new();
                ef.push(("code".to_owned(), Value::Int(e.error.code)));
                ef.push(("message".to_owned(), Value::Str(e.error.message)));
                proof {
                    assert(crate::value::view_members(ef@) =~= seq![
                        ("code"@, ValueSpec::Int(gv.error.code)),
                        ("message"@, ValueSpec::Str(gv.error.message)),
                    ]);
                }
                let mut fields: Vec<(String, Value)> = Vec::new();
                fields.push(("error".to_owned(), Value::Obj(ef)));
                fields.push(("id".to_owned(), e.id.to_value()));
                proof {
                    assert(crate::value::view_members(fields@) =~= (match response_value(
                        ResponseV::Error(gv),
                    ) {
                        ValueSpec::Obj(f) => f,
                        _ => Seq::empty(),
                    }));
                }
                Value::Obj(fields)
            },
        }
    }

    /// The response a JSON value denotes, or a `FormatError` for a value
    /// of any other shape.
    pub fn from_value(v: Value) -> (r: Result<Response, crate::request::FormatError>)
        ensures
            (match r {
                Ok(resp) => response_of_value(view_value(v)) == Some(resp@),
                Err(_) => response_of_value(view_value(v)) is None,
            }),
    {
        let ghost gv = view_value(v);
        match v {
            Value::Obj(fields) => {
                proof {
                    lemma_members_deep(fields);
                    reveal_strlit("id");
                    reveal_strlit("error");
                    reveal_strlit("result");
                    assert("id"@.len() == 2 && "error"@.len() == 5 && "result"@.len() == 6);
                    assert("id"@[0] == 'i' && "error"@[0] == 'e' && "result"@[0] == 'r');
                    assert("id"@ != "error"@ && "id"@ != "result"@ && "error"@ != "result"@);
                }
                let (got_id, got_error, got_result) = take3(fields, "id", "error", "result");
                let id = match got_id {
                    None => Id::Empty,
                    Some(Value::Null) => Id::Empty,
                    Some(Value::Str(s)) => Id::Exists(s),
                    Some(_) => {
                        return Err(crate::request::FormatError);
                    },
                };
                match got_error {
                    Some(Value::Obj(ef)) => {
                        proof {
                            lemma_members_deep(ef);
                            reveal_strlit("code");
                            reveal_strlit("message");
                            assert("code"@.len() == 4 && "message"@.len() == 7);
                            assert("code"@ != "message"@);
                        }
                        let (got_code, got_message) = take2(ef, "code", "message");
                        match (got_code, got_message) {
                            (Some(Value::Int(code)), Some(Value::Str(message))) => Ok(
                                Response::Error(
                                    Error { id, error: ErrorDescription { code, message } },
                                ),
                            ),
                            _ => Err(crate::request::FormatError),
                        }
                    },
                    Some(_) => Err(crate::request::FormatError),
                    None => match got_result {
                        Some(result) => Ok(Response::Success(Success { id, result })),
                        None => Err(crate::request::FormatError),
                    },
                }
            },
            _ => Err(crate::request::FormatError),
        }
    }
}

} // verus!
