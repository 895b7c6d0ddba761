//! One call carried end to end through the library's verified core:
//! client request encoding, server framing and dispatch, response
//! encoding, client framing, correlation, and the identifier check.

use communicatio::value::Value;
use communicatio::request::Request;
use communicatio::response::{Response, Success, Id};
use communicatio::server::{Server, HandlerResult, respond_to_outcome, method_not_found};
use communicatio::client::{new_call, read_response_segment, check_correlated, fresh_id};
use communicatio::correlation::CorrelationTable;
use communicatio::wire::{encode_request, encode_response};
use communicatio::framer::Framer;

type Handler = Box<dyn Fn(Vec<Value>) -> Option<HandlerResult>>;

/// The server's half, driven by hand: feed it one read's worth of bytes,
/// collect the bytes it would write back.
fn server_turn(server: &Server<Handler>, framer: &mut Framer, bytes: &[u8]) -> Vec<u8> {
    let mut written: Vec<u8> = Vec::new();
    for segment in framer.push(bytes) {
        match communicatio::server::read_request_segment(&segment) {
            Ok(request) => match server.find_handler(&request.topic) {
                Some(handler) => {
                    let outcome = handler(request.params);
                    if let Some(reply) = respond_to_outcome(request.id, outcome) {
                        written.extend(encode_response(reply));
                    }
                }
                None => written.extend(encode_response(method_not_found(request.id))),
            },
            Err(reply) => written.extend(encode_response(reply)),
        }
    }
    written
}

#[test]
fn a_call_comes_back_with_its_result_and_its_own_id() {
    let mut server: Server<Handler> = Server::new();
    server.handle("render", Box::new(|_params| Some(Ok(Value::Str("Hi".to_string())))));

    // client side: build the call and register the waiter
    let request = new_call("render".to_string(), vec![]);
    let call_id = request.id.clone();
    let mut table: CorrelationTable<u32> = CorrelationTable::new();
    let waiter_token: u32 = 42;
    assert!(table.register(call_id.clone(), waiter_token));
    let outbound = encode_request(request);

    // server side
    let mut server_framer = Framer::new();
    let inbound = server_turn(&server, &mut server_framer, &outbound);
    assert!(!inbound.is_empty());

    // client reader: decode, resolve, deliver
    let mut client_framer = Framer::new();
    let mut delivered: Option<(u32, Response)> = None;
    for segment in client_framer.push(&inbound) {
        if let Some((id, response)) = read_response_segment(&segment) {
            if let Some(token) = table.resolve(&id) {
                delivered = Some((token, response));
            }
        }
    }

    let (token, response) = delivered.expect("the waiter must be resolved");
    assert_eq!(token, waiter_token);
    let response = check_correlated(&call_id, response).expect("the id must match the call");
    assert_eq!(
        response,
        Response::Success(Success {
            id: Id::Exists(call_id),
            result: Value::Str("Hi".to_string()),
        })
    );
}

#[test]
fn two_calls_answered_in_reverse_order_each_reach_their_own_waiter() {
    let mut server: Server<Handler> = Server::new();
    server.handle(
        "echo",
        Box::new(|params| Some(Ok(params.into_iter().next().unwrap_or(Value::Null)))),
    );

    let first = new_call("echo".to_string(), vec![Value::Int(1)]);
    let second = new_call("echo".to_string(), vec![Value::Int(2)]);
    let (id1, id2) = (first.id.clone(), second.id.clone());
    assert_ne!(id1, id2);

    let mut table: CorrelationTable<u32> = CorrelationTable::new();
    assert!(table.register(id1.clone(), 1));
    assert!(table.register(id2.clone(), 2));

    let mut server_framer = Framer::new();
    let server_mut = &server;
    let reply1 = server_turn(server_mut, &mut server_framer, &encode_request(first));
    let reply2 = server_turn(server_mut, &mut server_framer, &encode_request(second));

    // deliver in reverse arrival order
    let mut client_framer = Framer::new();
    let mut arrivals: Vec<(u32, Response)> = Vec::new();
    let mut reversed = reply2;
    reversed.extend(reply1);
    for segment in client_framer.push(&reversed) {
        let (id, response) = read_response_segment(&segment).expect("correlatable");
        let token = table.resolve(&id).expect("a waiter exists");
        arrivals.push((token, check_correlated(&id, response).unwrap()));
    }

    assert_eq!(arrivals.len(), 2);
    let (token_a, resp_a) = &arrivals[0];
    let (token_b, resp_b) = &arrivals[1];
    assert_eq!(*token_a, 2);
    assert_eq!(*token_b, 1);
    match (resp_a, resp_b) {
        (Response::Success(a), Response::Success(b)) => {
            assert_eq!(a.result, Value::Int(2));
            assert_eq!(b.result, Value::Int(1));
        }
        _ => panic!("both responses must be successes"),
    }
}

#[test]
fn a_response_for_another_call_is_an_id_mismatch() {
    let response = Response::Success(Success {
        id: Id::Exists("other".to_string()),
        result: Value::Null,
    });
    let r = check_correlated(&"mine".to_string(), response);
    assert_eq!(r, Err(communicatio::client::ClientError::IdMismatchError));
}

#[test]
fn generated_ids_have_the_uuid_shape_and_differ() {
    let a = fresh_id();
    let b = fresh_id();
    assert_eq!(a.len(), 36);
    assert_eq!(b.len(), 36);
    assert_ne!(a, b);
}

#[test]
fn a_request_built_for_a_call_carries_topic_and_params() {
    let request = new_call("topic-x".to_string(), vec![Value::Bool(false)]);
    assert_eq!(request.topic, "topic-x".to_string());
    assert_eq!(request.params, vec![Value::Bool(false)]);
    assert_eq!(request.id.len(), 36);
    // the request value survives the trip into and out of its object shape
    let id = request.id.clone();
    let back = Request::from_value(request.to_value()).expect("well formed");
    assert_eq!(back.id, id);
    assert_eq!(back.topic, "topic-x".to_string());
}
