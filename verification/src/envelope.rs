//! The wire-level envelopes and the connection configuration.
//!
//! A request travels as a [`SocketPayload`] and comes back as a
//! [`SocketResponse`]. The application data inside either envelope is carried
//! as the text of one self-contained structured document (the embedding
//! application renders its typed values to that text and reads them back).

use vstd::prelude::*;

verus! {

/// Generic socket payload that can be used for any command communication.
#[derive(Debug, Clone)]
pub struct SocketPayload {
    /// Unique identifier for this request.
    pub request_id: String,
    /// Command name (e.g., "start", "stop", "status").
    pub command: String,
    /// The application payload, as the text of one structured document.
    pub data: String,
}

/// Relies on `uuid::Uuid::new_v4` and the `Display` impl of `Uuid`
/// (`fmt.rs`: hyphenated lowercase hex): the rendered identifier is
/// 36 characters long. The value itself is random, so nothing more is
/// promised of it.
#[verifier::external_body]
fn fresh_request_id() -> (r: String)
    ensures
        r@.len() == 36,
{
    uuid::Uuid::new_v4().to_string()
}

impl SocketPayload {
    /// Create a new payload; the request identifier is generated here and
    /// never supplied by the caller.
    pub fn new(command: String, data: String) -> (r: Self)
        ensures
            r.command == command,
            r.data == data,
            r.request_id@.len() == 36,
    {
        SocketPayload { request_id: fresh_request_id(), command, data }
    }
}

/// Response sent back through the socket.
#[derive(Debug, Clone)]
pub struct SocketResponse {
    /// Corresponds to the original request ID.
    pub request_id: String,
    /// Whether the operation was successful.
    pub success: bool,
    /// The response data, present exactly when the operation succeeded.
    pub data: Option<String>,
    /// Error message, present exactly when the operation failed.
    pub error: Option<String>,
}

impl SocketResponse {
    /// A response is well formed when exactly one of `data` / `error` is
    /// populated, as decided by `success`.
    pub open spec fn wf(self) -> bool {
        &&& self.success ==> self.data is Some && self.error is None
        &&& !self.success ==> self.data is None && self.error is Some
    }

    /// Create a successful response.
    pub fn success(request_id: String, data: String) -> (r: Self)
        ensures
            r.request_id == request_id,
            r.success,
            r.data == Some(data),
            r.error is None,
            r.wf(),
    {
        SocketResponse { request_id, success: true, data: Some(data), error: None }
    }

    /// Create an error response.
    pub fn error(request_id: String, error: String) -> (r: Self)
        ensures
            r.request_id == request_id,
            !r.success,
            r.data is None,
            r.error == Some(error),
            r.wf(),
    {
        SocketResponse { request_id, success: false, data: None, error: Some(error) }
    }
}

/// A well-formed response carries its data exactly when it reports success
/// and its error message exactly when it reports failure. Every response the
/// server dispatches is well formed: the one built for a handler's success,
/// the one built for a handler-signalled failure, and the one for a missing
/// command alike.
pub proof fn lemma_response_exclusive(resp: SocketResponse)
    requires
        resp.wf(),
    ensures
        resp.success ==> resp.data is Some && resp.error is None,
        !resp.success ==> resp.data is None && resp.error is Some,
{
}

/// Configuration for socket connections.
#[derive(Debug, Clone)]
pub struct SocketConfig {
    /// Path to the socket file.
    pub socket_path: String,
    /// Timeout in seconds, applied independently to connect and to read.
    pub timeout: u64,
}

impl Default for SocketConfig {
    /// The well-known default path with a 30 second timeout.
    fn default() -> (r: Self)
        ensures
            r.socket_path@ == "/tmp/circle.sock"@,
            r.timeout == 30,
    {
        SocketConfig { socket_path: "/tmp/circle.sock".to_owned(), timeout: 30 }
    }
}

impl From<String> for SocketConfig {
    /// A configuration for the given path with the default timeout.
    fn from(path: String) -> (r: Self) {
        SocketConfig { socket_path: path, timeout: 30 }
    }
}

impl vstd::std_specs::convert::FromSpecImpl<String> for SocketConfig {
    open spec fn obeys_from_spec() -> bool {
        true
    }

    open spec fn from_spec(path: String) -> Self {
        SocketConfig { socket_path: path, timeout: 30 }
    }
}

} // verus!
