//! The client side: interpret the reply text of one request/response
//! exchange.
//!
//! The exchange itself — connecting to the socket path, writing the encoded
//! request, half-closing, reading the reply under the configured timeout —
//! is the embedding application's; it encodes the request with
//! [`crate::codec::encode_payload`] and hands whatever text came back to
//! [`SocketClient::interpret_reply`].

use crate::codec::decode_response;
use crate::codec::opt_text;
use crate::codec::parse_response;
use crate::envelope::SocketConfig;
use crate::envelope::SocketResponse;
use crate::error::SocketError;
use crate::error::SocketResult;
use vstd::prelude::*;

verus! {

/// Socket client for sending requests: holds the configuration of the
/// exchanges the embedding application performs.
pub struct SocketClient {
    /// The connection configuration: socket path and timeout.
    pub config: SocketConfig,
}

impl SocketClient {
    /// Create a new socket client.
    pub fn new(config: SocketConfig) -> (r: Self)
        ensures
            r.config == config,
    {
        SocketClient { config }
    }

    /// Interpret the text read back in one exchange. An empty read is not a
    /// valid protocol state and is an invalid request; text that is not a
    /// response document is a serialization failure; otherwise the decoded
    /// response is returned as is, whether or not it reports success.
    pub fn interpret_reply(&self, reply: &str) -> (r: SocketResult<SocketResponse>)
        ensures
            reply@.len() == 0 ==> r == Err::<SocketResponse, SocketError>(
                SocketError::InvalidRequest,
            ),
            reply@.len() > 0 && parse_response(reply@) is None ==> (r matches Err(e) && e matches
                SocketError::Serialization(m) && m@ == "malformed response document"@),
            parse_response(reply@) matches Some(t) ==> r matches Ok(resp) && resp.request_id@
                == t.0 && resp.success == t.1 && opt_text(resp.error) == t.2 && opt_text(resp.data)
                == t.3,
    {
        if reply.is_empty() {
            return Err(SocketError::InvalidRequest);
        }
        match decode_response(reply) {
            Some(resp) => Ok(resp),
            None => Err(SocketError::Serialization("malformed response document".to_owned())),
        }
    }
}

} // verus!
