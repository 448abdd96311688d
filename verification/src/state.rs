//! Plugin state: per session and per plugin, and global per plugin. Keys map to JSON
//! values.

use vstd::prelude::*;

use crate::keymap::{has_key_at, lemma_map_of, KeyMap, MapKey};
use crate::protocol::{copy_plugin_id, copy_session_id, PluginId, SessionId};

verus! {

/// A plugin's state: key to JSON value.
pub type PluginState = KeyMap<String, serde_json::Value>;

/// The contents of a plugin's state.
pub type StateModel = Map<Seq<char>, serde_json::Value>;

/// Plugin id to the contents of its state.
pub type PluginStates = Map<Seq<char>, StateModel>;

/// Every inner map of `m` is well formed.
pub open spec fn states_wf(m: Map<Seq<char>, PluginState>) -> bool {
    forall|k: Seq<char>| #[trigger] m.contains_key(k) ==> m[k].wf()
}

/// Every inner map of `m`, at every depth, is well formed.
pub open spec fn sessions_wf(m: Map<Seq<char>, KeyMap<PluginId, PluginState>>) -> bool {
    forall|k: Seq<char>| #[trigger] m.contains_key(k) ==> m[k].wf() && states_wf(m[k]@)
}

/// The contents of the states of `m`.
pub open spec fn states_view(m: Map<Seq<char>, PluginState>) -> PluginStates {
    m.map_values(|s: PluginState| s@)
}

/// The value stored under `k`, or `d`.
pub open spec fn get_or<V>(m: Map<Seq<char>, V>, k: Seq<char>, d: V) -> V {
    if m.contains_key(k) {
        m[k]
    } else {
        d
    }
}

/// `m` with `value` stored under `key` in the state of `plugin`.
pub open spec fn set_in(m: PluginStates, plugin: Seq<char>, key: Seq<char>, value: serde_json::Value) -> PluginStates {
    m.insert(plugin, get_or(m, plugin, Map::empty()).insert(key, value))
}

/// `m` without `key` in the state of `plugin`, when `plugin` has a state.
pub open spec fn delete_in(m: PluginStates, plugin: Seq<char>, key: Seq<char>) -> PluginStates {
    if m.contains_key(plugin) {
        m.insert(plugin, m[plugin].remove(key))
    } else {
        m
    }
}

/// The value under `key` in the state of `plugin`, if any.
pub open spec fn lookup(m: PluginStates, plugin: Seq<char>, key: Seq<char>) -> Option<serde_json::Value> {
    if m.contains_key(plugin) && m[plugin].contains_key(key) {
        Some(m[plugin][key])
    } else {
        None
    }
}

/// Session state and global state of all plugins.
pub struct StateStore {
    sessions: KeyMap<SessionId, KeyMap<PluginId, PluginState>>,
    global: KeyMap<PluginId, PluginState>,
}

/// The value under `key` of `plugin` in `states`, copied.
fn get_value(states: &KeyMap<PluginId, PluginState>, plugin: &str, key: &str) -> (r: Option<serde_json::Value>)
    requires
        states.wf(),
        states_wf(states@),
    ensures
        r == lookup(states_view(states@), plugin@, key@),
{
    match states.get(plugin) {
        Some(st) => match st.get(key) {
            Some(v) => Some(v.clone()),
            None => None,
        },
        None => None,
    }
}

/// Store `value` under `key` in the state of `plugin` in `states`.
fn set_value(states: &mut KeyMap<PluginId, PluginState>, plugin: &PluginId, key: String, value: serde_json::Value)
    requires
        old(states).wf(),
        states_wf(old(states)@),
    ensures
        final(states).wf(),
        states_wf(final(states)@),
        states_view(final(states)@) == set_in(states_view(old(states)@), plugin.0@, key@, value),
{
    let ghost before = states@;
    let mut st = match states.remove(plugin.0.as_str()) {
        Some(st) => st,
        None => KeyMap::new(),
    };
    let ghost st0 = st@;
    st.insert(key, value);
    let ghost st1 = st;
    states.insert(copy_plugin_id(plugin), st);
    proof {
        assert(states@ =~= before.insert(plugin.0@, st1));
        assert(st0 == get_or(states_view(before), plugin.0@, Map::empty()));
        assert(states_view(states@) =~= set_in(states_view(before), plugin.0@, key@, value));
    }
}

/// Remove `key` from the state of `plugin` in `states`, when it has a state.
fn delete_value(states: &mut KeyMap<PluginId, PluginState>, plugin: &PluginId, key: &str)
    requires
        old(states).wf(),
        states_wf(old(states)@),
    ensures
        final(states).wf(),
        states_wf(final(states)@),
        states_view(final(states)@) == delete_in(states_view(old(states)@), plugin.0@, key@),
{
    let ghost before = states@;
    match states.remove(plugin.0.as_str()) {
        Some(st) => {
            let mut st = st;
            let _ = st.remove(key);
            let ghost st1 = st;
            states.insert(copy_plugin_id(plugin), st);
            proof {
                assert(states@ =~= before.insert(plugin.0@, st1));
                assert(states_view(states@) =~= delete_in(states_view(before), plugin.0@, key@));
            }
        },
        None => {
            proof {
                assert(states@ =~= before);
            }
        },
    }
}

/// `v` lists the entries of state `st`: each key once, with its value.
pub open spec fn snapshot_of(st: StateModel, v: Seq<(String, serde_json::Value)>) -> bool {
    &&& forall|k: Seq<char>| #[trigger] st.contains_key(k) <==> exists|i: int| 0 <= i < v.len() && (#[trigger] v[i]).0@ == k
    &&& forall|i: int| 0 <= i < v.len() ==> st.contains_key((#[trigger] v[i]).0@) && st[v[i].0@] == v[i].1
}

/// The entries of a plugin state, as key-value pairs in insertion order.
fn state_pairs(st: &PluginState) -> (v: Vec<(String, serde_json::Value)>)
    requires
        st.wf(),
    ensures
        snapshot_of(st@, v@),
{
    let mut v: Vec<(String, serde_json::Value)> = Vec::new();
    let n = st.len();
    for i in 0..n
        invariant
            n == st.entries().len(),
            v@.len() == i,
            forall|j: int| 0 <= j < i ==> (#[trigger] v@[j]).0@ == st.entries()[j].0@ && v@[j].1 == st.entries()[j].1,
    {
        let e = st.entry_at(i);
        v.push((e.0.clone(), e.1.clone()));
    }
    proof {
        lemma_map_of(st.entries());
        assert forall|k: Seq<char>| #[trigger] st@.contains_key(k) implies exists|i: int| 0 <= i < v@.len() && (#[trigger] v@[i]).0@ == k by {
            let i = choose|i: int| has_key_at(st.entries(), k, i);
            assert(v@[i].0@ == k);
        }
        assert forall|i: int| 0 <= i < v@.len() implies st@.contains_key((#[trigger] v@[i]).0@) && st@[v@[i].0@] == v@[i].1 by {
            assert(st.entries()[i].0.key_view() == v@[i].0@);
        }
    }
    v
}

// ── Session expiry ──────────────────────────────────────────────────────────

/// Session `s` was last accessed before `cutoff` (times are ticks of a monotonic clock).
pub open spec fn is_expired(access: Map<Seq<char>, u64>, cutoff: u64, s: Seq<char>) -> bool {
    access.contains_key(s) && access[s] < cutoff
}

/// The sessions last accessed before `cutoff`.
pub open spec fn expired_set(access: Map<Seq<char>, u64>, cutoff: u64) -> Set<Seq<char>> {
    Set::new(|s: Seq<char>| is_expired(access, cutoff, s))
}

/// The ids of the first `n` of `ids`, as a set.
pub open spec fn id_set(ids: Seq<SessionId>, n: int) -> Set<Seq<char>> {
    Set::new(|s: Seq<char>| exists|j: int| 0 <= j < n && j < ids.len() && (#[trigger] ids[j]).0@ == s)
}

/// The sessions of the access table `last_access` last accessed before `cutoff`, in
/// the table's order.
pub fn expired_sessions(last_access: &KeyMap<SessionId, u64>, cutoff: u64) -> (r: Vec<SessionId>)
    ensures
        id_set(r@, r@.len() as int) == expired_set(last_access@, cutoff),
{
    proof {
        use_type_invariant(last_access);
        lemma_map_of(last_access.entries());
    }
    let ghost es = last_access.entries();
    let mut r: Vec<SessionId> = Vec::new();
    let n = last_access.len();
    for i in 0..n
        invariant
            n == es.len(),
            es == last_access.entries(),
            forall|s: Seq<char>|
                #![trigger id_set(r@, r@.len() as int).contains(s)]
                id_set(r@, r@.len() as int).contains(s) <==> exists|k: int|
                    0 <= k < i && (#[trigger] es[k]).0.key_view() == s && es[k].1 < cutoff,
    {
        let e = last_access.entry_at(i);
        if e.1 < cutoff {
            let ghost before = r@;
            r.push(copy_session_id(&e.0));
            proof {
                assert forall|s: Seq<char>| #[trigger] id_set(r@, r@.len() as int).contains(s) <==> exists|k: int|
                    0 <= k < i + 1 && (#[trigger] es[k]).0.key_view() == s && es[k].1 < cutoff by {
                    if id_set(r@, r@.len() as int).contains(s) {
                        let j = choose|j: int| 0 <= j < r@.len() && (#[trigger] r@[j]).0@ == s;
                        if j < before.len() {
                            assert(before[j] == r@[j]);
                            assert(id_set(before, before.len() as int).contains(s));
                        } else {
                            assert(es[i as int].0.key_view() == s);
                        }
                    }
                    if exists|k: int| 0 <= k < i + 1 && (#[trigger] es[k]).0.key_view() == s && es[k].1 < cutoff {
                        let k = choose|k: int| 0 <= k < i + 1 && (#[trigger] es[k]).0.key_view() == s && es[k].1 < cutoff;
                        if k < i {
                            assert(id_set(before, before.len() as int).contains(s));
                            let j = choose|j: int| 0 <= j < before.len() && (#[trigger] before[j]).0@ == s;
                            assert(r@[j] == before[j]);
                        } else {
                            assert(r@[before.len() as int].0@ == s);
                        }
                    }
                }
            }
        } else {
            proof {
                assert forall|s: Seq<char>| #[trigger] id_set(r@, r@.len() as int).contains(s) <==> exists|k: int|
                    0 <= k < i + 1 && (#[trigger] es[k]).0.key_view() == s && es[k].1 < cutoff by {
                    if exists|k: int| 0 <= k < i + 1 && (#[trigger] es[k]).0.key_view() == s && es[k].1 < cutoff {
                        let k = choose|k: int| 0 <= k < i + 1 && (#[trigger] es[k]).0.key_view() == s && es[k].1 < cutoff;
                        assert(k != i);
                    }
                }
            }
        }
    }
    proof {
        assert forall|s: Seq<char>| #[trigger] id_set(r@, r@.len() as int).contains(s) == expired_set(
            last_access@,
            cutoff,
        ).contains(s) by {
            if id_set(r@, r@.len() as int).contains(s) {
                let k = choose|k: int| 0 <= k < n && (#[trigger] es[k]).0.key_view() == s && es[k].1 < cutoff;
                assert(last_access@[es[k].0.key_view()] == es[k].1);
            }
            if is_expired(last_access@, cutoff, s) {
                let k = choose|k: int| has_key_at(es, s, k);
                assert(last_access@[es[k].0.key_view()] == es[k].1);
            }
        }
        assert(id_set(r@, r@.len() as int) =~= expired_set(last_access@, cutoff));
    }
    r
}

impl StateStore {
    #[verifier::type_invariant]
    spec fn inv(self) -> bool {
        &&& self.sessions.wf()
        &&& sessions_wf(self.sessions@)
        &&& self.global.wf()
        &&& states_wf(self.global@)
    }

    /// Session id to the states of the plugins in that session.
    pub closed spec fn sessions(&self) -> Map<Seq<char>, PluginStates> {
        self.sessions@.map_values(|m: KeyMap<PluginId, PluginState>| states_view(m@))
    }

    /// The global state of each plugin.
    pub closed spec fn global(&self) -> PluginStates {
        states_view(self.global@)
    }

    /// No state at all.
    pub fn new() -> (s: Self)
        ensures
            s.sessions() == Map::<Seq<char>, PluginStates>::empty(),
            s.global() == Map::<Seq<char>, StateModel>::empty(),
    {
        let s = StateStore { sessions: KeyMap::new(), global: KeyMap::new() };
        proof {
            assert(s.sessions() =~= Map::<Seq<char>, PluginStates>::empty());
            assert(s.global() =~= Map::<Seq<char>, StateModel>::empty());
        }
        s
    }

    /// The value under `key` in the state of `plugin` for session `session`.
    pub fn session_get(&self, session: &SessionId, plugin: &PluginId, key: &str) -> (r: Option<serde_json::Value>)
        ensures
            r == lookup(get_or(self.sessions(), session.0@, Map::empty()), plugin.0@, key@),
    {
        proof {
            use_type_invariant(self);
        }
        match self.sessions.get(session.0.as_str()) {
            Some(states) => get_value(states, plugin.0.as_str(), key),
            None => None,
        }
    }

    /// Store `value` under `key` in the state of `plugin` for session `session`,
    /// creating the session's and the plugin's state when missing.
    pub fn session_set(&mut self, session: &SessionId, plugin: &PluginId, key: String, value: serde_json::Value)
        ensures
            final(self).sessions() == old(self).sessions().insert(
                session.0@,
                set_in(get_or(old(self).sessions(), session.0@, Map::empty()), plugin.0@, key@, value),
            ),
            final(self).global() == old(self).global(),
    {
        proof {
            use_type_invariant(&*self);
        }
        let ghost before = self.sessions@;
        let mut sessions = KeyMap::new();
        std::mem::swap(&mut sessions, &mut self.sessions);
        let mut states = match sessions.remove(session.0.as_str()) {
            Some(m) => m,
            None => KeyMap::new(),
        };
        proof {
            assert(states_view(states@) == get_or(before.map_values(|m: KeyMap<PluginId, PluginState>| states_view(m@)), session.0@, Map::empty())) by {
                if !before.contains_key(session.0@) {
                    assert(states_view(states@) =~= Map::<Seq<char>, StateModel>::empty());
                }
            }
        }
        set_value(&mut states, plugin, key, value);
        let ghost st = states;
        sessions.insert(copy_session_id(session), states);
        self.sessions = sessions;
        proof {
            assert(self.sessions@ =~= before.insert(session.0@, st));
            assert(self.sessions() =~= old(self).sessions().insert(session.0@, states_view(st@)));
        }
    }

    /// Remove `key` from the state of `plugin` for session `session`, if present.
    pub fn session_delete(&mut self, session: &SessionId, plugin: &PluginId, key: &str)
        ensures
            final(self).sessions() == if old(self).sessions().contains_key(session.0@) {
                old(self).sessions().insert(session.0@, delete_in(old(self).sessions()[session.0@], plugin.0@, key@))
            } else {
                old(self).sessions()
            },
            final(self).global() == old(self).global(),
    {
        proof {
            use_type_invariant(&*self);
        }
        let ghost before = self.sessions@;
        let mut sessions = KeyMap::new();
        std::mem::swap(&mut sessions, &mut self.sessions);
        match sessions.remove(session.0.as_str()) {
            Some(states) => {
                let mut states = states;
                delete_value(&mut states, plugin, key);
                let ghost st = states;
                sessions.insert(copy_session_id(session), states);
                proof {
                    assert(sessions@ =~= before.insert(session.0@, st));
                }
            },
            None => {
                proof {
                    assert(sessions@ =~= before);
                }
            },
        }
        self.sessions = sessions;
        proof {
            assert(self.sessions() =~= (if old(self).sessions().contains_key(session.0@) {
                old(self).sessions().insert(session.0@, delete_in(old(self).sessions()[session.0@], plugin.0@, key@))
            } else {
                old(self).sessions()
            }));
        }
    }

    /// Forget everything stored for session `session`.
    pub fn remove_session(&mut self, session: &SessionId)
        ensures
            final(self).sessions() == old(self).sessions().remove(session.0@),
            final(self).global() == old(self).global(),
    {
        proof {
            use_type_invariant(&*self);
        }
        let mut sessions = KeyMap::new();
        std::mem::swap(&mut sessions, &mut self.sessions);
        let _ = sessions.remove(session.0.as_str());
        self.sessions = sessions;
        proof {
            assert(self.sessions() =~= old(self).sessions().remove(session.0@));
        }
    }

    /// Forget every session last accessed before `cutoff`: its state and its entry in
    /// the access table. Global state is kept.
    pub fn evict_expired(&mut self, last_access: &mut KeyMap<SessionId, u64>, cutoff: u64)
        ensures
            final(last_access).wf(),
            final(last_access)@ == old(last_access)@.remove_keys(expired_set(old(last_access)@, cutoff)),
            final(self).sessions() == old(self).sessions().remove_keys(expired_set(old(last_access)@, cutoff)),
            final(self).global() == old(self).global(),
    {
        proof {
            use_type_invariant(&*last_access);
        }
        let ids = expired_sessions(last_access, cutoff);
        let ghost gone = expired_set(last_access@, cutoff);
        let ghost sessions0 = self.sessions();
        let ghost access0 = last_access@;
        proof {
            assert(id_set(ids@, 0) =~= Set::<Seq<char>>::empty());
            assert(sessions0.remove_keys(id_set(ids@, 0)) =~= sessions0);
            assert(access0.remove_keys(id_set(ids@, 0)) =~= access0);
        }
        for k in 0..ids.len()
            invariant
                last_access.wf(),
                last_access@ == access0.remove_keys(id_set(ids@, k as int)),
                self.sessions() == sessions0.remove_keys(id_set(ids@, k as int)),
                self.global() == old(self).global(),
        {
            let id = &ids[k];
            self.remove_session(id);
            let _ = last_access.remove(id.0.as_str());
            proof {
                assert(id_set(ids@, k + 1) =~= id_set(ids@, k as int).insert(ids@[k as int].0@));
                assert(self.sessions() =~= sessions0.remove_keys(id_set(ids@, k + 1)));
                assert(last_access@ =~= access0.remove_keys(id_set(ids@, k + 1)));
            }
        }
    }

    /// The value under `key` in the global state of `plugin`.
    pub fn global_get(&self, plugin: &PluginId, key: &str) -> (r: Option<serde_json::Value>)
        ensures
            r == lookup(self.global(), plugin.0@, key@),
    {
        proof {
            use_type_invariant(self);
        }
        get_value(&self.global, plugin.0.as_str(), key)
    }

    /// Store `value` under `key` in the global state of `plugin`.
    pub fn global_set(&mut self, plugin: &PluginId, key: String, value: serde_json::Value)
        ensures
            final(self).global() == set_in(old(self).global(), plugin.0@, key@, value),
            final(self).sessions() == old(self).sessions(),
    {
        proof {
            use_type_invariant(&*self);
        }
        let mut global = KeyMap::new();
        std::mem::swap(&mut global, &mut self.global);
        set_value(&mut global, plugin, key, value);
        self.global = global;
    }

    /// Replace the whole global state of `plugin` (restoring it from persistence).
    pub fn restore_global(&mut self, plugin: &PluginId, state: PluginState)
        ensures
            final(self).global() == old(self).global().insert(plugin.0@, state@),
            final(self).sessions() == old(self).sessions(),
    {
        proof {
            use_type_invariant(&*self);
            use_type_invariant(&state);
        }
        let ghost st = state;
        let mut global = KeyMap::new();
        std::mem::swap(&mut global, &mut self.global);
        global.insert(copy_plugin_id(plugin), state);
        self.global = global;
        proof {
            assert(self.global() =~= old(self).global().insert(plugin.0@, st@));
        }
    }

    /// A copy of the global state of `plugin`, if it has one.
    pub fn global_snapshot(&self, plugin: &PluginId) -> (r: Option<Vec<(String, serde_json::Value)>>)
        ensures
            match r {
                Some(v) => self.global().contains_key(plugin.0@) && snapshot_of(self.global()[plugin.0@], v@),
                None => !self.global().contains_key(plugin.0@),
            },
    {
        proof {
            use_type_invariant(self);
        }
        match self.global.get(plugin.0.as_str()) {
            Some(st) => {
                proof {
                    assert(self.global()[plugin.0@] == st@);
                }
                Some(state_pairs(st))
            },
            None => None,
        }
    }
}

/// A read of a key in a session gives back what was last written there.
pub proof fn law_session_read_after_write(
    states: Map<Seq<char>, PluginStates>,
    session: Seq<char>,
    plugin: Seq<char>,
    key: Seq<char>,
    value: serde_json::Value,
)
    ensures
        ({
            let after = states.insert(session, set_in(get_or(states, session, Map::empty()), plugin, key, value));
            lookup(get_or(after, session, Map::empty()), plugin, key) == Some(value)
        }),
{
}

/// A write in one session, plugin or key leaves every other one as it was.
pub proof fn law_session_write_isolated(
    states: Map<Seq<char>, PluginStates>,
    session: Seq<char>,
    plugin: Seq<char>,
    key: Seq<char>,
    value: serde_json::Value,
    s2: Seq<char>,
    p2: Seq<char>,
    k2: Seq<char>,
)
    requires
        s2 != session || p2 != plugin || k2 != key,
    ensures
        ({
            let after = states.insert(session, set_in(get_or(states, session, Map::empty()), plugin, key, value));
            lookup(get_or(after, s2, Map::empty()), p2, k2) == lookup(get_or(states, s2, Map::empty()), p2, k2)
        }),
{
}

/// A read of a deleted key finds nothing.
pub proof fn law_session_delete(states: PluginStates, plugin: Seq<char>, key: Seq<char>)
    ensures
        lookup(delete_in(states, plugin, key), plugin, key) is None,
{
}

/// A read of a global key gives back what was last written there, and a write leaves
/// every other plugin and key as it was.
pub proof fn law_global_read_after_write(
    states: PluginStates,
    plugin: Seq<char>,
    key: Seq<char>,
    value: serde_json::Value,
    p2: Seq<char>,
    k2: Seq<char>,
)
    ensures
        lookup(set_in(states, plugin, key, value), plugin, key) == Some(value),
        p2 != plugin || k2 != key ==> lookup(set_in(states, plugin, key, value), p2, k2) == lookup(
            states,
            p2,
            k2,
        ),
{
}

} // verus!

verus! {

/// Session expiry forgets every session last accessed before the cutoff, and keeps
/// every other session's state as it was.
pub proof fn law_session_expiry(
    sessions: Map<Seq<char>, PluginStates>,
    access: Map<Seq<char>, u64>,
    cutoff: u64,
    s: Seq<char>,
    plugin: Seq<char>,
    key: Seq<char>,
)
    ensures
        ({
            let after = sessions.remove_keys(expired_set(access, cutoff));
            &&& !is_expired(access, cutoff, s) ==> lookup(get_or(after, s, Map::empty()), plugin, key) == lookup(
                get_or(sessions, s, Map::empty()),
                plugin,
                key,
            )
            &&& is_expired(access, cutoff, s) ==> lookup(get_or(after, s, Map::empty()), plugin, key) is None
        }),
{
    assert(expired_set(access, cutoff).contains(s) == is_expired(access, cutoff, s));
}

} // verus!
