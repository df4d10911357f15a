use socket::codec::{decode_payload, decode_response, encode_payload};
use socket::{
    Handler, SocketClient, SocketConfig, SocketError, SocketPayload, SocketResponse, SocketResult,
};

/// A handler that mirrors the start/stop pattern: it reads `{value, number}`
/// and answers `{result, doubled}`.
struct PatternHandler {
    verb: &'static str,
}

impl Handler for PatternHandler {
    fn handle(&self, payload: SocketPayload) -> SocketResult<SocketResponse> {
        let v: serde_json::Value =
            serde_json::from_str(&payload.data).map_err(|_| SocketError::InvalidRequest)?;
        let value = v["value"].as_str().unwrap_or("").to_string();
        let number = v["number"].as_i64().unwrap_or(0);
        let data = format!(
            "{{\"result\":\"{} with value: {}\",\"doubled\":{}}}",
            self.verb,
            value,
            number * 2
        );
        Ok(SocketResponse::success(payload.request_id, data))
    }
}

/// A handler that always reports an application failure.
struct FailingHandler;

impl Handler for FailingHandler {
    fn handle(&self, payload: SocketPayload) -> SocketResult<SocketResponse> {
        let _ = payload.request_id.clone();
        Err(SocketError::ConnectionTimeout)
    }
}

enum TestHandler {
    Pattern(PatternHandler),
    Failing(FailingHandler),
}

impl Handler for TestHandler {
    fn handle(&self, payload: SocketPayload) -> SocketResult<SocketResponse> {
        match self {
            TestHandler::Pattern(h) => h.handle(payload),
            TestHandler::Failing(h) => h.handle(payload),
        }
    }
}

fn pattern_server() -> socket::SocketServer<TestHandler> {
    let mut server = socket::SocketServer::new(SocketConfig::default());
    server.register_handler(
        "start".to_string(),
        TestHandler::Pattern(PatternHandler { verb: "Started" }),
    );
    server.register_handler(
        "stop".to_string(),
        TestHandler::Pattern(PatternHandler { verb: "Stopped" }),
    );
    server
}

#[test]
fn registered_handler_scenario() {
    let server = pattern_server();
    let payload = SocketPayload::new(
        "start".to_string(),
        "{\"value\":\"my-process\",\"number\":42}".to_string(),
    );
    let request_id = payload.request_id.clone();
    let resp = server.dispatch(payload);
    assert_eq!(resp.request_id, request_id);
    assert!(resp.success);
    assert!(resp.error.is_none());
    let data: serde_json::Value = serde_json::from_str(resp.data.as_deref().unwrap()).unwrap();
    assert_eq!(data["result"].as_str().unwrap(), "Started with value: my-process");
    assert_eq!(data["doubled"].as_i64().unwrap(), 84);
}

#[test]
fn unknown_command_scenario() {
    let server = pattern_server();
    let payload = SocketPayload::new("unknown".to_string(), "{}".to_string());
    let request_id = payload.request_id.clone();
    let resp = server.dispatch(payload);
    assert_eq!(resp.request_id, request_id);
    assert!(!resp.success);
    assert!(resp.data.is_none());
    let msg = resp.error.expect("an error message");
    assert!(msg.contains("unknown"));
    assert_eq!(msg, "No handler for command: unknown");
}

#[test]
fn failing_handler_yields_error_response() {
    let mut server = socket::SocketServer::new(SocketConfig::default());
    server.register_handler("fail".to_string(), TestHandler::Failing(FailingHandler));
    let payload = SocketPayload::new("fail".to_string(), "{}".to_string());
    let request_id = payload.request_id.clone();
    let resp = server.dispatch(payload);
    assert_eq!(resp.request_id, request_id);
    assert!(!resp.success);
    assert!(resp.data.is_none());
    assert_eq!(resp.error.as_deref(), Some("Connection timed out"));
}

#[test]
fn later_registration_replaces_earlier() {
    let mut server = socket::SocketServer::new(SocketConfig::default());
    server.register_handler(
        "go".to_string(),
        TestHandler::Pattern(PatternHandler { verb: "First" }),
    );
    server.register_handler(
        "go".to_string(),
        TestHandler::Pattern(PatternHandler { verb: "Second" }),
    );
    let payload = SocketPayload::new(
        "go".to_string(),
        "{\"value\":\"x\",\"number\":1}".to_string(),
    );
    let resp = server.dispatch(payload);
    assert!(resp.success);
    let data: serde_json::Value = serde_json::from_str(resp.data.as_deref().unwrap()).unwrap();
    assert_eq!(data["result"].as_str().unwrap(), "Second with value: x");
}

#[test]
fn handle_request_round_trip() {
    let server = pattern_server();
    let payload = SocketPayload::new(
        "stop".to_string(),
        "{\"value\":\"p\",\"number\":21}".to_string(),
    );
    let request_id = payload.request_id.clone();
    let text = encode_payload(&payload);
    let out = server.handle_request(&text).expect("handled").expect("a response");
    let resp = decode_response(&out).expect("a response document");
    assert_eq!(resp.request_id, request_id);
    assert!(resp.success);
    let data: serde_json::Value = serde_json::from_str(resp.data.as_deref().unwrap()).unwrap();
    assert_eq!(data["doubled"].as_i64().unwrap(), 42);
}

#[test]
fn handle_request_empty_and_invalid() {
    let server = pattern_server();
    assert_eq!(server.handle_request(""), Ok(None));
    assert_eq!(
        server.handle_request("not an envelope"),
        Err(SocketError::InvalidRequest)
    );
}

#[test]
fn interpret_reply_cases() {
    let client = SocketClient::new(SocketConfig::default());
    assert!(matches!(
        client.interpret_reply(""),
        Err(SocketError::InvalidRequest)
    ));
    match client.interpret_reply("garbage") {
        Err(SocketError::Serialization(m)) => assert_eq!(m, "malformed response document"),
        other => panic!("expected a serialization error, got {:?}", other),
    }
    let ok = client
        .interpret_reply("{\"request_id\":\"r1\",\"success\":true,\"error\":null,\"data\":{}}")
        .expect("a response");
    assert_eq!(ok.request_id, "r1");
    assert!(ok.success);
    assert_eq!(ok.data.as_deref(), Some("{}"));
}

#[test]
fn error_messages_match_taxonomy() {
    assert_eq!(
        SocketError::Io("broken pipe".to_string()).message(),
        "IO error: broken pipe"
    );
    assert_eq!(
        SocketError::Serialization("bad".to_string()).message(),
        "Serialization error: bad"
    );
    assert_eq!(
        SocketError::AlreadyExists("/tmp/x.sock".to_string()).message(),
        "Socket already exists at path: /tmp/x.sock"
    );
    assert_eq!(SocketError::ConnectionTimeout.message(), "Connection timed out");
    assert_eq!(
        SocketError::HandlerNotFound("run".to_string()).message(),
        "Request handler not found for command: run"
    );
    assert_eq!(SocketError::InvalidRequest.message(), "Invalid request format");
}

#[test]
fn config_default_and_from() {
    let d = SocketConfig::default();
    assert_eq!(d.socket_path, "/tmp/circle.sock");
    assert_eq!(d.timeout, 30);
    let c = SocketConfig::from("/tmp/other.sock".to_string());
    assert_eq!(c.socket_path, "/tmp/other.sock");
    assert_eq!(c.timeout, 30);
}

#[test]
fn payload_new_generates_a_request_id() {
    let a = SocketPayload::new("start".to_string(), "{}".to_string());
    let b = SocketPayload::new("start".to_string(), "{}".to_string());
    assert_eq!(a.request_id.len(), 36);
    assert_eq!(b.request_id.len(), 36);
    assert_ne!(a.request_id, b.request_id);
    let enc = encode_payload(&a);
    let back = decode_payload(&enc).unwrap();
    assert_eq!(back.request_id, a.request_id);
}
