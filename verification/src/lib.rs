//! A minimal request/response RPC core for local-socket IPC.
//!
//! The crate models the wire envelopes (`SocketPayload`, `SocketResponse`),
//! encodes and decodes them as one self-describing JSON document per message,
//! and dispatches decoded requests to registered handlers by command name.
//! The socket I/O itself (binding, connecting, timeouts) lives with the
//! embedding application; this crate supplies the verified protocol logic.

pub mod client;
pub mod codec;
pub mod envelope;
pub mod error;
pub mod registry;
pub mod server;

pub use client::SocketClient;
pub use envelope::SocketConfig;
pub use envelope::SocketPayload;
pub use envelope::SocketResponse;
pub use error::SocketError;
pub use error::SocketResult;
pub use registry::Handler;
pub use registry::HandlerRegistry;
pub use server::SocketServer;
