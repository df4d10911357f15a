//! The handler registry: a mapping from command name to handler.

use crate::envelope::SocketPayload;
use crate::envelope::SocketResponse;
use crate::error::SocketResult;
use vstd::prelude::*;

verus! {

/// A handler for socket requests, registered under a command name and
/// supplied by the embedding application.
///
/// The contract below is the collaborator contract that every registered
/// handler is held to: a response it returns answers the request it was
/// given, so it carries that request's identifier and populates exactly one
/// of its data and error fields. Implementations live outside this crate, so
/// the contract is taken on trust of each implementation.
pub trait Handler {
    /// Process one decoded request.
    fn handle(&self, payload: SocketPayload) -> (r: SocketResult<SocketResponse>)
        ensures
            r matches Ok(resp) ==> resp.request_id@ == payload.request_id@ && resp.wf(),
    ;
}

/// The mapping a sequence of registrations builds up: a later registration
/// of the same command replaces the earlier one.
pub open spec fn entries_map<H>(es: Seq<(String, H)>) -> Map<Seq<char>, H>
    decreases es.len(),
{
    if es.len() == 0 {
        Map::empty()
    } else {
        entries_map(es.drop_last()).insert(es.last().0@, es.last().1)
    }
}

/// A mapping from command name to handler. Seen through its view it is a
/// `Map` from the command's characters to the handler registered last.
pub struct HandlerRegistry<H> {
    entries: Vec<(String, H)>,
}

impl<H> View for HandlerRegistry<H> {
    type V = Map<Seq<char>, H>;

    closed spec fn view(&self) -> Map<Seq<char>, H> {
        entries_map(self.entries@)
    }
}

impl<H> HandlerRegistry<H> {
    /// An empty registry.
    pub fn new() -> (r: Self)
        ensures
            r@ == Map::<Seq<char>, H>::empty(),
    {
        let r = HandlerRegistry { entries: Vec::new() };
        proof {
            assert(r.entries@.len() == 0);
        }
        r
    }

    /// Register a handler under a command name, replacing any handler the
    /// command already had.
    pub fn register(&mut self, command: String, handler: H)
        ensures
            final(self)@ == old(self)@.insert(command@, handler),
    {
        let ghost cmd = command@;
        let ghost h = handler;
        self.entries.push((command, handler));
        proof {
            assert(self.entries@.drop_last() =~= old(self).entries@);
            assert(self.entries@.last() == (self.entries@.last().0, h));
            assert(self.entries@.last().0@ == cmd);
        }
    }

    /// Look up the handler registered for a command.
    pub fn lookup(&self, command: &String) -> (r: Option<&H>)
        ensures
            match r {
                Some(h) => self@.contains_key(command@) && *h == self@[command@],
                None => !self@.contains_key(command@),
            },
    {
        let n = self.entries.len();
        let mut i: usize = n;
        proof {
            assert(self.entries@.take(n as int) =~= self.entries@);
        }
        while i > 0
            invariant
                i <= n,
                n == self.entries.len(),
                entries_map(self.entries@).contains_key(command@) == entries_map(
                    self.entries@.take(i as int),
                ).contains_key(command@),
                entries_map(self.entries@).contains_key(command@) ==> entries_map(self.entries@)[command@]
                    == entries_map(self.entries@.take(i as int))[command@],
            decreases i,
        {
            i = i - 1;
            proof {
                assert(self.entries@.take(i as int + 1).drop_last() =~= self.entries@.take(
                    i as int,
                ));
                assert(self.entries@.take(i as int + 1).last() == self.entries@[i as int]);
            }
            let pair = &self.entries[i];
            if pair.0 == *command {
                return Some(&pair.1);
            }
        }
        proof {
            assert(self.entries@.take(0) =~= Seq::<(String, H)>::empty());
        }
        None
    }
}

} // verus!
