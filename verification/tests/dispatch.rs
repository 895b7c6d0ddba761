use communicatio::value::Value;
use communicatio::response::{Response, Success, Error, ErrorDescription, Id};
use communicatio::server::{
    Server, HandlerResult, respond_to_outcome, method_not_found, read_request_segment,
    METHOD_NOT_FOUND,
};
use communicatio::wire::{encode_response, decode_response_segment};
use communicatio::framer::Framer;

type Handler = Box<dyn Fn(Vec<Value>) -> Option<HandlerResult>>;

#[test]
fn unknown_topic_yields_the_method_not_found_response() {
    // {"id":"x","topic":"missing","params":[]} against a server with no
    // handler for "missing"
    let wire: &[u8] = b"{\"id\":\"x\",\"topic\":\"missing\",\"params\":[]}----";
    let server: Server<Handler> = Server::new();
    let mut framer = Framer::new();
    let segments = framer.push(wire);
    assert_eq!(segments.len(), 1);
    let request = read_request_segment(&segments[0]).expect("the request is well formed");
    assert!(server.find_handler(&request.topic).is_none());
    let reply = method_not_found(request.id);
    assert_eq!(
        reply,
        Response::Error(Error {
            id: Id::Exists("x".to_string()),
            error: ErrorDescription { code: -32601, message: "Method not found".to_string() },
        })
    );
    // and on the wire, byte for byte
    let bytes = encode_response(reply);
    assert_eq!(
        String::from_utf8(bytes).unwrap(),
        "{\"error\":{\"code\":-32601,\"message\":\"Method not found\"},\"id\":\"x\"}----"
    );
}

#[test]
fn a_handler_answering_ok_yields_a_success_with_the_request_id() {
    let out = respond_to_outcome("rid".to_string(), Some(Ok(Value::Str("Hi".to_string()))));
    assert_eq!(
        out,
        Some(Response::Success(Success {
            id: Id::Exists("rid".to_string()),
            result: Value::Str("Hi".to_string()),
        }))
    );
}

#[test]
fn a_handler_answering_err_yields_an_error_with_the_request_id() {
    let desc = ErrorDescription { code: 5, message: "boom".to_string() };
    let out = respond_to_outcome("rid".to_string(), Some(Err(desc.clone())));
    assert_eq!(
        out,
        Some(Response::Error(Error { id: Id::Exists("rid".to_string()), error: desc }))
    );
}

#[test]
fn a_no_result_handler_writes_nothing_back() {
    let server: Server<Handler> = {
        let mut s: Server<Handler> = Server::new();
        s.handle("notify", Box::new(|_params| None));
        s
    };
    let handler = server.find_handler(&"notify".to_string()).expect("registered");
    let outcome = handler(vec![]);
    let mut written: Vec<u8> = Vec::new();
    if let Some(reply) = respond_to_outcome("rid".to_string(), outcome) {
        written.extend(encode_response(reply));
    }
    assert_eq!(written.len(), 0);
}

#[test]
fn reregistering_a_topic_silently_replaces_the_handler() {
    let mut server: Server<i32> = Server::new();
    server.handle("t", 1);
    server.handle("t", 2);
    assert_eq!(server.find_handler(&"t".to_string()), Some(&2));
}

#[test]
fn bytes_that_are_not_json_get_an_uncorrelated_invalid_reply() {
    let reply = read_request_segment(b"not json at all").unwrap_err();
    assert_eq!(
        reply,
        Response::Error(Error {
            id: Id::Empty,
            error: ErrorDescription {
                code: METHOD_NOT_FOUND,
                message: "Invalid".to_string()
            },
        })
    );
}

#[test]
fn json_of_the_wrong_shape_gets_an_uncorrelated_malformed_reply() {
    let reply = read_request_segment(b"{\"id\":\"x\"}").unwrap_err();
    assert_eq!(
        reply,
        Response::Error(Error {
            id: Id::Empty,
            error: ErrorDescription {
                code: METHOD_NOT_FOUND,
                message: "Malformed".to_string()
            },
        })
    );
}

#[test]
fn a_bad_message_does_not_stop_later_messages_from_decoding() {
    let mut framer = Framer::new();
    let segments = framer.push(b"garbage----{\"id\":\"x\",\"topic\":\"t\",\"params\":[]}----");
    assert_eq!(segments.len(), 2);
    assert!(read_request_segment(&segments[0]).is_err());
    let request = read_request_segment(&segments[1]).expect("second message still decodes");
    assert_eq!(request.topic, "t".to_string());
    // the uncorrelated reply still answers on the wire
    let reply = read_request_segment(&segments[0]).unwrap_err();
    let mut reply_framer = Framer::new();
    let reply_segments = reply_framer.push(&encode_response(reply));
    assert_eq!(reply_segments.len(), 1);
    assert!(decode_response_segment(&reply_segments[0]).is_ok());
}
