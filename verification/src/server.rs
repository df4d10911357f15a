//! The server side: dispatch one decoded request to its registered handler
//! and produce the response document to write back.
//!
//! The socket work itself — binding the listener, accepting connections,
//! reading and writing — is the embedding application's: for each accepted
//! connection it reads once and hands the text to [`SocketServer::handle_request`],
//! then writes back the returned document, if there is one.

use crate::codec::decode_payload;
use crate::codec::encode_response;
use crate::codec::opt_text;
use crate::codec::parse_payload;
use crate::codec::response_text;
use crate::envelope::SocketConfig;
use crate::envelope::SocketPayload;
use crate::envelope::SocketResponse;
use crate::error::SocketError;
use crate::error::SocketResult;
use crate::registry::Handler;
use crate::registry::HandlerRegistry;
use vstd::prelude::*;

verus! {

/// The message of the error response for a command nobody registered; it
/// names the offending command.
pub open spec fn not_found_text(cmd: Seq<char>) -> Seq<char> {
    "No handler for command: "@ + cmd
}

/// The message for a command nobody registered names that command: the
/// command's characters follow the fixed lead.
pub proof fn lemma_not_found_names_command(cmd: Seq<char>)
    ensures
        not_found_text(cmd).len() == 24 + cmd.len(),
        not_found_text(cmd).subrange(24, not_found_text(cmd).len() as int) == cmd,
{
    reveal_strlit("No handler for command: ");
    assert(not_found_text(cmd).subrange(24, not_found_text(cmd).len() as int) =~= cmd);
}

/// Render the error message for a command nobody registered.
fn not_found_message(command: &String) -> (r: String)
    ensures
        r@ == not_found_text(command@),
{
    let mut s = "No handler for command: ".to_owned();
    s.append(command.as_str());
    s
}

/// Socket server: owns the handler registry and turns each decoded request
/// into exactly one response.
pub struct SocketServer<H> {
    /// The connection configuration the embedding application serves under.
    pub config: SocketConfig,
    /// The registered handlers, by command name.
    pub handlers: HandlerRegistry<H>,
}

impl<H: Handler> SocketServer<H> {
    /// Create a new socket server with no handlers registered.
    pub fn new(config: SocketConfig) -> (r: Self)
        ensures
            r.config == config,
            r.handlers@ == Map::<Seq<char>, H>::empty(),
    {
        SocketServer { config, handlers: HandlerRegistry::new() }
    }

    /// Register a handler for a specific command, replacing any handler the
    /// command already had.
    pub fn register_handler(&mut self, command: String, handler: H)
        ensures
            final(self).handlers@ == old(self).handlers@.insert(command@, handler),
            final(self).config == old(self).config,
    {
        self.handlers.register(command, handler);
    }

    /// Route one request to its registered handler and turn the outcome into
    /// the one response for it: the handler's own response, an error response
    /// carrying the handler's failure message, or an error response naming
    /// the missing command.
    pub fn dispatch(&self, payload: SocketPayload) -> (r: SocketResponse)
        ensures
            r.request_id@ == payload.request_id@,
            r.wf(),
            !self.handlers@.contains_key(payload.command@) ==> (r.error matches Some(m)
                && !r.success && m@ == not_found_text(payload.command@)),
    {
        let request_id = payload.request_id.clone();
        match self.handlers.lookup(&payload.command) {
            Some(h) => match h.handle(payload) {
                Ok(resp) => resp,
                Err(e) => {
                    let msg = e.message();
                    SocketResponse::error(request_id, msg)
                },
            },
            None => {
                let msg = not_found_message(&payload.command);
                SocketResponse::error(request_id, msg)
            },
        }
    }

    /// Handle the text read from one connection: decode it as a request
    /// document, dispatch it, and encode the response document to write back.
    /// Empty input is an aborted connection and gets no response; text that
    /// is not a request document is an invalid request and gets no response
    /// either.
    pub fn handle_request(&self, request_text: &str) -> (r: SocketResult<Option<String>>)
        ensures
            request_text@.len() == 0 ==> r == Ok::<Option<String>, SocketError>(None),
            request_text@.len() > 0 && parse_payload(request_text@) is None ==> r == Err::<
                Option<String>,
                SocketError,
            >(SocketError::InvalidRequest),
            parse_payload(request_text@) matches Some(t) ==> r matches Ok(out) && out matches Some(
                text,
            ) && (exists|resp: SocketResponse|
                {
                    &&& #[trigger] resp.wf()
                    &&& text@ == response_text(
                        resp.request_id@,
                        resp.success,
                        opt_text(resp.error),
                        opt_text(resp.data),
                    )
                    &&& resp.request_id@ == t.0
                    &&& (!self.handlers@.contains_key(t.1) ==> (resp.error matches Some(m)
                        && !resp.success && m@ == not_found_text(t.1)))
                }),
    {
        if request_text.is_empty() {
            return Ok(None);
        }
        match decode_payload(request_text) {
            None => Err(SocketError::InvalidRequest),
            Some(payload) => {
                let ghost t = parse_payload(request_text@)->Some_0;
                let resp = self.dispatch(payload);
                let text = encode_response(&resp);
                proof {
                    assert(resp.wf() && text@ == response_text(
                        resp.request_id@,
                        resp.success,
                        opt_text(resp.error),
                        opt_text(resp.data),
                    ) && resp.request_id@ == t.0 && (!self.handlers@.contains_key(t.1)
                        ==> (resp.error matches Some(m) && !resp.success && m@ == not_found_text(
                        t.1,
                    ))));
                }
                Ok(Some(text))
            },
        }
    }
}

} // verus!
