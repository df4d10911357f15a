//! The error taxonomy for socket operations.

use vstd::prelude::*;

verus! {

/// Errors that can occur during socket operations.
///
/// `Io`, `Serialization` and `AlreadyExists` carry the describing text as a
/// plain string so that the enum stays independent of any transport library.
#[derive(Debug, Clone, PartialEq, Eq)]
pub enum SocketError {
    /// Underlying transport failure (connect, read, write).
    Io(String),
    /// Malformed structured data during encode or decode.
    Serialization(String),
    /// A socket file already exists at the given path.
    AlreadyExists(String),
    /// Connect or read exceeded the configured duration.
    ConnectionTimeout,
    /// No handler is registered for the named command.
    HandlerNotFound(String),
    /// Received bytes could not be interpreted as a valid envelope.
    InvalidRequest,
}

/// Result type for socket operations.
pub type SocketResult<T> = Result<T, SocketError>;

impl SocketError {
    /// The human-readable message for this error.
    pub open spec fn spec_message(self) -> Seq<char> {
        match self {
            SocketError::Io(m) => "IO error: "@ + m@,
            SocketError::Serialization(m) => "Serialization error: "@ + m@,
            SocketError::AlreadyExists(p) => "Socket already exists at path: "@ + p@,
            SocketError::ConnectionTimeout => "Connection timed out"@,
            SocketError::HandlerNotFound(c) => "Request handler not found for command: "@ + c@,
            SocketError::InvalidRequest => "Invalid request format"@,
        }
    }

    /// Render the error as its human-readable message.
    pub fn message(&self) -> (r: String)
        ensures
            r@ == self.spec_message(),
    {
        match self {
            SocketError::Io(m) => {
                let mut s = "IO error: ".to_owned();
                s.append(m.as_str());
                s
            },
            SocketError::Serialization(m) => {
                let mut s = "Serialization error: ".to_owned();
                s.append(m.as_str());
                s
            },
            SocketError::AlreadyExists(p) => {
                let mut s = "Socket already exists at path: ".to_owned();
                s.append(p.as_str());
                s
            },
            SocketError::ConnectionTimeout => "Connection timed out".to_owned(),
            SocketError::HandlerNotFound(c) => {
                let mut s = "Request handler not found for command: ".to_owned();
                s.append(c.as_str());
                s
            },
            SocketError::InvalidRequest => "Invalid request format".to_owned(),
        }
    }
}

} // verus!
