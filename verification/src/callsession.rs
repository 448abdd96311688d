//! The session of the plugin call in progress, which host functions read to know
//! whose state they touch. The host keeps one slot per thread that runs plugin calls.

use vstd::prelude::*;

use crate::protocol::{copy_session_id, ClientCapabilities, SessionId};

verus! {

/// The session and client of the plugin call in progress.
pub struct CallSession {
    pub session_id: SessionId,
    pub client: ClientCapabilities,
}

impl CallSession {
    /// No call yet: an empty session id, and a client of protocol and app version 0
    /// with no host components.
    pub fn new() -> (s: Self)
        ensures
            s.session_id.0@ == Seq::<char>::empty(),
            s.client.protocol_version == 0,
            s.client.app_version == 0,
            s.client.registered_host_components@ == Seq::<String>::empty(),
    {
        CallSession { session_id: SessionId(String::new()), client: ClientCapabilities::default() }
    }
}

/// Record the session of the call about to run.
pub fn set_call_session(slot: &mut CallSession, session_id: SessionId, client: ClientCapabilities)
    ensures
        final(slot).session_id == session_id,
        final(slot).client == client,
{
    slot.session_id = session_id;
    slot.client = client;
}

/// The session id of the call in progress.
pub fn get_call_session_id(slot: &CallSession) -> (id: SessionId)
    ensures
        id == slot.session_id,
{
    copy_session_id(&slot.session_id)
}

/// The session id that a device keeps across launches: the stored one when there is
/// a non-empty one, `fresh` otherwise (which the device then stores).
pub fn stored_or_fresh_session(stored: Option<String>, fresh: String) -> (id: SessionId)
    ensures
        (stored matches Some(s) && s@.len() > 0) ==> id.0@ == stored->0@,
        !(stored matches Some(s) && s@.len() > 0) ==> id.0@ == fresh@,
{
    match stored {
        Some(s) => if s.as_str().unicode_len() > 0 {
            SessionId(s)
        } else {
            SessionId(fresh)
        },
        None => SessionId(fresh),
    }
}

} // verus!
