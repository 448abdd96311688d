//! A builder of session contexts for tests of plugins.

use vstd::prelude::*;

use crate::protocol::{copy_strings, ClientCapabilities, SessionCtx, SessionId, PROTOCOL_VERSION};

verus! {

/// A session context under construction, with test defaults.
#[derive(Debug, Clone)]
pub struct MockSession {
    pub session_id: SessionId,
    pub user_id: Option<String>,
    pub protocol_version: u32,
    pub app_version: u32,
    pub registered_host_components: Vec<String>,
}

impl Default for MockSession {
    fn default() -> (m: Self)
        ensures
            m.session_id.0@ == "test-session"@,
            m.user_id is None,
            m.protocol_version == PROTOCOL_VERSION,
            m.app_version == 0,
            m.registered_host_components@ == Seq::<String>::empty(),
    {
        MockSession {
            session_id: SessionId("test-session".to_owned()),
            user_id: None,
            protocol_version: PROTOCOL_VERSION,
            app_version: 0,
            registered_host_components: Vec::new(),
        }
    }
}

impl MockSession {
    /// A session with the test defaults: id `test-session`, no user, the current
    /// protocol version, app version 0, no host components.
    pub fn new() -> (m: Self)
        ensures
            m.session_id.0@ == "test-session"@,
            m.user_id is None,
            m.protocol_version == PROTOCOL_VERSION,
            m.app_version == 0,
            m.registered_host_components@ == Seq::<String>::empty(),
    {
        MockSession::default()
    }

    /// The same session with id `id`.
    pub fn with_session_id(self, id: &str) -> (m: Self)
        ensures
            m.session_id.0@ == id@,
            m.user_id == self.user_id,
            m.protocol_version == self.protocol_version,
            m.app_version == self.app_version,
            m.registered_host_components == self.registered_host_components,
    {
        let mut s = self;
        s.session_id = SessionId(id.to_owned());
        s
    }

    /// The same session with user `id`.
    pub fn with_user_id(self, id: &str) -> (m: Self)
        ensures
            m.user_id matches Some(u) && u@ == id@,
            m.session_id == self.session_id,
            m.protocol_version == self.protocol_version,
            m.app_version == self.app_version,
            m.registered_host_components == self.registered_host_components,
    {
        let mut s = self;
        s.user_id = Some(id.to_owned());
        s
    }

    /// The same session reporting protocol version `v`.
    pub fn with_protocol_version(self, v: u32) -> (m: Self)
        ensures
            m == (MockSession { protocol_version: v, ..self }),
    {
        let mut s = self;
        s.protocol_version = v;
        s
    }

    /// The same session reporting app version `v`.
    pub fn with_app_version(self, v: u32) -> (m: Self)
        ensures
            m == (MockSession { app_version: v, ..self }),
    {
        let mut s = self;
        s.app_version = v;
        s
    }

    /// The same session with host component `name` registered too.
    pub fn with_host_component(self, name: &str) -> (m: Self)
        ensures
            m.registered_host_components@.len() == self.registered_host_components@.len() + 1,
            m.registered_host_components@.drop_last() == self.registered_host_components@,
            m.registered_host_components@.last()@ == name@,
            m.session_id == self.session_id,
            m.user_id == self.user_id,
            m.protocol_version == self.protocol_version,
            m.app_version == self.app_version,
    {
        let mut s = self;
        s.registered_host_components.push(name.to_owned());
        proof {
            assert(s.registered_host_components@.drop_last() =~= self.registered_host_components@);
        }
        s
    }

    /// The session context: this id and user, a client with these versions and host
    /// components, no caller.
    pub fn as_ctx(&self) -> (c: SessionCtx)
        ensures
            c.session_id == self.session_id,
            c.user_id == self.user_id,
            c.client.protocol_version == self.protocol_version,
            c.client.app_version == self.app_version,
            c.client.registered_host_components@ == self.registered_host_components@,
            c.caller is None,
    {
        SessionCtx {
            session_id: SessionId(self.session_id.0.clone()),
            user_id: match &self.user_id {
                Some(u) => Some(u.clone()),
                None => None,
            },
            client: ClientCapabilities {
                protocol_version: self.protocol_version,
                app_version: self.app_version,
                registered_host_components: copy_strings(&self.registered_host_components),
            },
            caller: None,
        }
    }
}

} // verus!
