use communicatio::value::Value;
use communicatio::request::{Request, FormatError};
use communicatio::response::{Response, Success, Error, ErrorDescription, Id};
use communicatio::wire::{
    encode_value, decode_value, encode_request, decode_request_segment, encode_response,
    decode_response_segment,
};
use communicatio::framer::Framer;
use communicatio::value::obj_lookup;

fn sample_params() -> Vec<Value> {
    vec![
        Value::Int(7),
        Value::Str("seven".to_string()),
        Value::Bool(true),
        Value::Null,
        Value::Arr(vec![Value::Int(1), Value::Int(2)]),
        Value::Obj(vec![("k".to_string(), Value::Str("v".to_string()))]),
    ]
}

fn sample_request() -> Request {
    Request::new("abc-123".to_string(), "render".to_string(), sample_params())
}

#[test]
fn request_round_trips_through_the_codec() {
    let encoded = encode_value(&sample_request().to_value());
    let value = decode_value(&encoded).expect("encoded request must parse");
    let back = Request::from_value(value).expect("parsed request must be well formed");
    assert_eq!(back, sample_request());
}

#[test]
fn request_round_trips_through_frame_and_wire() {
    let bytes = encode_request(sample_request());
    let mut framer = Framer::new();
    let segments = framer.push(&bytes);
    assert_eq!(segments.len(), 1);
    let back = decode_request_segment(&segments[0]).expect("segment must decode");
    assert_eq!(back, sample_request());
}

#[test]
fn success_response_round_trips() {
    let make = || {
        Response::Success(Success {
            id: Id::Exists("abc-123".to_string()),
            result: Value::Str("Hi".to_string()),
        })
    };
    let bytes = encode_response(make());
    let mut framer = Framer::new();
    let segments = framer.push(&bytes);
    assert_eq!(segments.len(), 1);
    let back = decode_response_segment(&segments[0]).expect("segment must decode");
    assert_eq!(back, make());
}

#[test]
fn error_response_round_trips() {
    let make = || {
        Response::Error(Error {
            id: Id::Empty,
            error: ErrorDescription { code: -32601, message: "Method not found".to_string() },
        })
    };
    let bytes = encode_response(make());
    let back = decode_response_segment(&bytes[..bytes.len() - 4]).expect("must decode");
    assert_eq!(back, make());
}

#[test]
fn request_wire_text_is_the_documented_object() {
    let req = Request::new("x".to_string(), "render".to_string(), vec![]);
    let bytes = encode_value(&req.to_value());
    assert_eq!(
        String::from_utf8(bytes).unwrap(),
        "{\"id\":\"x\",\"params\":[],\"topic\":\"render\"}"
    );
}

#[test]
fn non_object_request_is_a_format_error() {
    assert_eq!(Request::from_value(Value::Int(3)), Err(FormatError));
}

#[test]
fn request_missing_params_is_a_format_error() {
    let v = Value::Obj(vec![
        ("id".to_string(), Value::Str("x".to_string())),
        ("topic".to_string(), Value::Str("t".to_string())),
    ]);
    assert_eq!(Request::from_value(v), Err(FormatError));
}

#[test]
fn request_with_non_string_topic_is_a_format_error() {
    let v = Value::Obj(vec![
        ("id".to_string(), Value::Str("x".to_string())),
        ("topic".to_string(), Value::Int(9)),
        ("params".to_string(), Value::Arr(vec![])),
    ]);
    assert_eq!(Request::from_value(v), Err(FormatError));
}

#[test]
fn response_with_null_id_reads_as_absent() {
    let v = Value::Obj(vec![
        ("id".to_string(), Value::Null),
        ("result".to_string(), Value::Int(1)),
    ]);
    let resp = Response::from_value(v).expect("null id is well formed");
    assert_eq!(resp.get_id(), None);
}

#[test]
fn response_with_missing_id_reads_as_absent() {
    let v = Value::Obj(vec![("result".to_string(), Value::Int(1))]);
    let resp = Response::from_value(v).expect("absent id is well formed");
    assert_eq!(resp.get_id(), None);
}

#[test]
fn response_error_with_non_integer_code_is_rejected() {
    let v = Value::Obj(vec![
        ("error".to_string(), Value::Obj(vec![
            ("code".to_string(), Value::Str("bad".to_string())),
            ("message".to_string(), Value::Str("m".to_string())),
        ])),
        ("id".to_string(), Value::Str("x".to_string())),
    ]);
    assert!(Response::from_value(v).is_err());
}

#[test]
fn response_with_neither_result_nor_error_is_rejected() {
    let v = Value::Obj(vec![("id".to_string(), Value::Str("x".to_string()))]);
    assert!(Response::from_value(v).is_err());
}

#[test]
fn fractional_numbers_are_outside_the_model() {
    assert_eq!(decode_value(b"1.5"), None);
}

#[test]
fn get_id_hands_back_the_identifier() {
    let resp = Response::Success(Success {
        id: Id::Exists("abc".to_string()),
        result: Value::Null,
    });
    assert_eq!(resp.get_id(), Some("abc".to_string()));
}

#[test]
fn obj_lookup_finds_the_first_binding() {
    let fields = vec![
        ("a".to_string(), Value::Int(1)),
        ("b".to_string(), Value::Int(2)),
        ("a".to_string(), Value::Int(3)),
    ];
    assert_eq!(obj_lookup(&fields, "a"), Some(&Value::Int(1)));
    assert_eq!(obj_lookup(&fields, "b"), Some(&Value::Int(2)));
    assert_eq!(obj_lookup(&fields, "c"), None);
}

#[test]
fn id_to_value_renders_string_or_null() {
    assert_eq!(Id::Exists("x".to_string()).to_value(), Value::Str("x".to_string()));
    assert_eq!(Id::Empty.to_value(), Value::Null);
}
