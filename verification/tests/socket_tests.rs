use socket::codec::encode_payload;
use socket::{
    Handler, SocketClient, SocketConfig, SocketError, SocketPayload, SocketResponse, SocketResult,
    SocketServer,
};
use std::sync::Arc;
use tokio::io::{AsyncReadExt, AsyncWriteExt};
use tokio::net::{UnixListener, UnixStream};

/// The start/stop pattern handler: reads `{value, number}`, answers
/// `{result, doubled}`.
struct PatternHandler {
    verb: &'static str,
}

impl Handler for PatternHandler {
    fn handle(&self, payload: SocketPayload) -> SocketResult<SocketResponse> {
        let v: serde_json::Value =
            serde_json::from_str(&payload.data).map_err(|_| SocketError::InvalidRequest)?;
        let value = v["value"].as_str().unwrap_or("").to_string();
        let number = v["number"].as_i64().unwrap_or(0);
        let data = format!(
            "{{\"result\":\"{} with value: {}\",\"doubled\":{}}}",
            self.verb,
            value,
            number * 2
        );
        Ok(SocketResponse::success(payload.request_id, data))
    }
}

/// A handler answering the fixed start response of the communication test.
struct StartHandler;

impl Handler for StartHandler {
    fn handle(&self, payload: SocketPayload) -> SocketResult<SocketResponse> {
        Ok(SocketResponse::success(
            payload.request_id,
            "{\"started\":true,\"pid\":12345}".to_string(),
        ))
    }
}

enum TestHandler {
    Pattern(PatternHandler),
    Start(StartHandler),
}

impl Handler for TestHandler {
    fn handle(&self, payload: SocketPayload) -> SocketResult<SocketResponse> {
        match self {
            TestHandler::Pattern(h) => h.handle(payload),
            TestHandler::Start(h) => h.handle(payload),
        }
    }
}

fn fresh_socket_path(tag: &str) -> String {
    format!("/tmp/{}_{}.sock", tag, uuid::Uuid::new_v4())
}

/// Serve connections forever: read once, hand the text to the library, write
/// back the response document if there is one.
async fn serve(listener: UnixListener, server: Arc<SocketServer<TestHandler>>) {
    loop {
        let accepted = listener.accept().await;
        let (mut stream, _) = match accepted {
            Ok(pair) => pair,
            Err(_) => continue,
        };
        let server = Arc::clone(&server);
        tokio::spawn(async move {
            let mut buf = vec![0u8; 8192];
            let n = match stream.read(&mut buf).await {
                Ok(n) => n,
                Err(_) => return,
            };
            let text = String::from_utf8_lossy(&buf[..n]).to_string();
            if let Ok(Some(out)) = server.handle_request(&text) {
                let _ = stream.write_all(out.as_bytes()).await;
            }
        });
    }
}

/// One exchange: connect, write the encoded request, half-close, read the
/// reply, interpret it.
async fn exchange(path: &str, payload: &SocketPayload) -> SocketResult<SocketResponse> {
    let mut stream = UnixStream::connect(path)
        .await
        .map_err(|e| SocketError::Io(e.to_string()))?;
    let text = encode_payload(payload);
    stream
        .write_all(text.as_bytes())
        .await
        .map_err(|e| SocketError::Io(e.to_string()))?;
    stream
        .shutdown()
        .await
        .map_err(|e| SocketError::Io(e.to_string()))?;
    let mut buf = vec![0u8; 8192];
    let n = stream
        .read(&mut buf)
        .await
        .map_err(|e| SocketError::Io(e.to_string()))?;
    let reply = String::from_utf8_lossy(&buf[..n]).to_string();
    let client = SocketClient::new(SocketConfig::from(path.to_string()));
    client.interpret_reply(&reply)
}

#[test]
fn test_start_stop_pattern() {
    let rt = tokio::runtime::Builder::new_multi_thread()
        .enable_all()
        .build()
        .unwrap();
    rt.block_on(async {
        let path = fresh_socket_path("test_circle");
        let mut server = SocketServer::new(SocketConfig::from(path.clone()));
        server.register_handler(
            "start".to_string(),
            TestHandler::Pattern(PatternHandler { verb: "Started" }),
        );
        server.register_handler(
            "stop".to_string(),
            TestHandler::Pattern(PatternHandler { verb: "Stopped" }),
        );
        let listener = UnixListener::bind(&path).unwrap();
        let handle = tokio::spawn(serve(listener, Arc::new(server)));

        let start_payload = SocketPayload::new(
            "start".to_string(),
            "{\"value\":\"my-process\",\"number\":42}".to_string(),
        );
        let response = exchange(&path, &start_payload).await.unwrap();
        assert!(response.success);
        let data: serde_json::Value =
            serde_json::from_str(response.data.as_deref().unwrap()).unwrap();
        assert_eq!(data["result"].as_str().unwrap(), "Started with value: my-process");
        assert_eq!(data["doubled"].as_i64().unwrap(), 84);

        let stop_payload = SocketPayload::new(
            "stop".to_string(),
            "{\"value\":\"my-process\",\"number\":21}".to_string(),
        );
        let response = exchange(&path, &stop_payload).await.unwrap();
        assert!(response.success);
        let data: serde_json::Value =
            serde_json::from_str(response.data.as_deref().unwrap()).unwrap();
        assert_eq!(data["result"].as_str().unwrap(), "Stopped with value: my-process");
        assert_eq!(data["doubled"].as_i64().unwrap(), 42);

        handle.abort();
    });
}

#[test]
fn test_socket_communication() {
    let rt = tokio::runtime::Builder::new_multi_thread()
        .enable_all()
        .build()
        .unwrap();
    rt.block_on(async {
        let path = fresh_socket_path("test_circle_socket");
        let mut server = SocketServer::new(SocketConfig::from(path.clone()));
        server.register_handler("start".to_string(), TestHandler::Start(StartHandler));
        let listener = UnixListener::bind(&path).unwrap();
        let handle = tokio::spawn(serve(listener, Arc::new(server)));

        let payload = SocketPayload::new(
            "start".to_string(),
            "{\"process_id\":\"test_process\",\"command\":[\"echo\",\"hello\"]}".to_string(),
        );
        let response = exchange(&path, &payload).await;
        assert!(response.is_ok());
        let resp = response.unwrap();
        assert!(resp.success);
        assert!(resp.data.is_some());
        let data: serde_json::Value = serde_json::from_str(resp.data.as_deref().unwrap()).unwrap();
        assert_eq!(data["pid"].as_i64().unwrap(), 12345);

        handle.abort();
    });
}

#[test]
fn concurrent_clients_get_their_own_responses() {
    let rt = tokio::runtime::Builder::new_multi_thread()
        .enable_all()
        .build()
        .unwrap();
    rt.block_on(async {
        let path = fresh_socket_path("test_circle_concurrent");
        let mut server = SocketServer::new(SocketConfig::from(path.clone()));
        server.register_handler(
            "start".to_string(),
            TestHandler::Pattern(PatternHandler { verb: "Started" }),
        );
        let listener = UnixListener::bind(&path).unwrap();
        let handle = tokio::spawn(serve(listener, Arc::new(server)));

        let mut tasks = Vec::new();
        for n in 0..8 {
            let path = path.clone();
            tasks.push(tokio::spawn(async move {
                let payload = SocketPayload::new(
                    "start".to_string(),
                    format!("{{\"value\":\"p{}\",\"number\":{}}}", n, n),
                );
                let request_id = payload.request_id.clone();
                let response = exchange(&path, &payload).await.unwrap();
                (n, request_id, response)
            }));
        }
        for task in tasks {
            let (n, request_id, response) = task.await.unwrap();
            assert_eq!(response.request_id, request_id);
            assert!(response.success);
            let data: serde_json::Value =
                serde_json::from_str(response.data.as_deref().unwrap()).unwrap();
            assert_eq!(data["result"].as_str().unwrap(), format!("Started with value: p{}", n));
            assert_eq!(data["doubled"].as_i64().unwrap(), 2 * n);
        }

        handle.abort();
    });
}

#[test]
fn unknown_command_over_the_socket() {
    let rt = tokio::runtime::Builder::new_multi_thread()
        .enable_all()
        .build()
        .unwrap();
    rt.block_on(async {
        let path = fresh_socket_path("test_circle_unknown");
        let mut server = SocketServer::new(SocketConfig::from(path.clone()));
        server.register_handler(
            "start".to_string(),
            TestHandler::Pattern(PatternHandler { verb: "Started" }),
        );
        server.register_handler(
            "stop".to_string(),
            TestHandler::Pattern(PatternHandler { verb: "Stopped" }),
        );
        let listener = UnixListener::bind(&path).unwrap();
        let handle = tokio::spawn(serve(listener, Arc::new(server)));

        let payload = SocketPayload::new("unknown".to_string(), "{}".to_string());
        let request_id = payload.request_id.clone();
        let response = exchange(&path, &payload).await.unwrap();
        assert_eq!(response.request_id, request_id);
        assert!(!response.success);
        assert!(response.error.unwrap().contains("unknown"));

        handle.abort();
    });
}
