//! The request half of the message model: a topic-addressed call with a
//! caller-generated correlation identifier and positional JSON
//! parameters, and its JSON object shape on the wire.

use vstd::prelude::*;
use crate::value::{Value, ValueSpec, view_value, obj_get, take3, lemma_values_deep};

verus! {

/// The mathematical shape of a request.
pub struct RequestV {
    pub id: Seq<char>,
    pub topic: Seq<char>,
    pub params: Seq<ValueSpec>,
}

/// A call to a topic: `id` correlates the response back to this call,
/// `topic` selects the handler, `params` are positional and arbitrary.
#[derive(Debug, PartialEq)]
pub struct Request {
    pub id: String,
    pub topic: String,
    pub params: Vec<Value>,
}

impl View for Request {
    type V = RequestV;

    open spec fn view(&self) -> RequestV {
        RequestV { id: self.id@, topic: self.topic@, params: self.params.deep_view() }
    }
}

/// A request rejected for its shape: the object lacked a string `id`, a
/// string `topic`, or an array `params`.
#[derive(Debug, PartialEq)]
pub struct FormatError;

/// The JSON object a request becomes on the wire.
pub open spec fn request_value(r: RequestV) -> ValueSpec {
    ValueSpec::Obj(
        seq![
            ("id"@, ValueSpec::Str(r.id)),
            ("params"@, ValueSpec::Arr(r.params)),
            ("topic"@, ValueSpec::Str(r.topic)),
        ],
    )
}

/// The request a JSON value denotes, if it is an object with a string
/// `id`, a string `topic` and an array `params`.
pub open spec fn request_of_value(v: ValueSpec) -> Option<RequestV> {
    match v {
        ValueSpec::Obj(fields) => match (
            obj_get(fields, "id"@),
            obj_get(fields, "topic"@),
            obj_get(fields, "params"@),
        ) {
            (
                Some(ValueSpec::Str(id)),
                Some(ValueSpec::Str(topic)),
                Some(ValueSpec::Arr(params)),
            ) => Some(RequestV { id, topic, params }),
            _ => None,
        },
        _ => None,
    }
}

/// Reading back the JSON object a request was turned into recovers the
/// request exactly; nothing is lost on the wire's value level.
pub proof fn lemma_request_round_trip(r: RequestV)
    ensures
        request_of_value(request_value(r)) == Some(r),
{
    reveal_with_fuel(obj_get, 4);
    reveal_strlit("id");
    reveal_strlit("params");
    reveal_strlit("topic");
    assert("id"@.len() == 2 && "params"@.len() == 6 && "topic"@.len() == 5);
    assert("id"@ != "params"@ && "id"@ != "topic"@ && "params"@ != "topic"@);
    let fields = seq![
        ("id"@, ValueSpec::Str(r.id)),
        ("params"@, ValueSpec::Arr(r.params)),
        ("topic"@, ValueSpec::Str(r.topic)),
    ];
    assert(fields.skip(1) =~= seq![
        ("params"@, ValueSpec::Arr(r.params)),
        ("topic"@, ValueSpec::Str(r.topic)),
    ]);
    assert(fields.skip(1).skip(1) =~= seq![("topic"@, ValueSpec::Str(r.topic))]);
    assert(obj_get(fields, "id"@) == Some(ValueSpec::Str(r.id)));
    assert(obj_get(fields, "params"@) == Some(ValueSpec::Arr(r.params)));
    assert(obj_get(fields, "topic"@) == Some(ValueSpec::Str(r.topic)));
}

impl Request {
    /// Package an identifier, a topic and parameters as a request.
    pub fn new(id: String, topic: String, params: Vec<Value>) -> (r: Request)
        ensures
            r@ == (RequestV { id: id@, topic: topic@, params: params.deep_view() }),
    {
        Request { id, topic, params }
    }

    /// The JSON object this request becomes on the wire.
    pub fn to_value(self) -> (r: Value)
        ensures
            view_value(r) == request_value(self@),
    {
        let mut fields: Vec<(String, Value)> = Vec::new();
        fields.push(("id".to_owned(), Value::Str(self.id)));
        fields.push(("params".to_owned(), Value::Arr(self.params)));
        fields.push(("topic".to_owned(), Value::Str(self.topic)));
        proof {
            lemma_values_deep(self.params);
            assert(crate::value::view_members(fields@) =~= (match request_value(self@) {
                ValueSpec::Obj(f) => f,
                _ => Seq::empty(),
            }));
        }
        Value::Obj(fields)
    }

    /// The request a JSON value denotes, or a `FormatError` for a value
    /// of any other shape.
    pub fn from_value(v: Value) -> (r: Result<Request, FormatError>)
        ensures
            (match r {
                Ok(req) => request_of_value(view_value(v)) == Some(req@),
                Err(_) => request_of_value(view_value(v)) is None,
            }),
    {
        let ghost gv = view_value(v);
        match v {
            Value::Obj(fields) => {
                proof {
                    crate::value::lemma_members_deep(fields);
                    reveal_strlit("id");
                    reveal_strlit("topic");
                    reveal_strlit("params");
                    assert("id"@.len() == 2 && "params"@.len() == 6 && "topic"@.len() == 5);
                    assert("id"@ != "params"@ && "id"@ != "topic"@ && "params"@ != "topic"@);
                }
                let (got_id, got_topic, got_params) = take3(fields, "id", "topic", "params");
                match (got_id, got_topic, got_params) {
                    (Some(Value::Str(id)), Some(Value::Str(topic)), Some(Value::Arr(params))) => {
                        proof {
                            lemma_values_deep(params);
                        }
                        Ok(Request { id, topic, params })
                    },
                    _ => Err(FormatError),
                }
            },
            _ => Err(FormatError),
        }
    }
}

} // verus!
