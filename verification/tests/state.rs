use dioxus_extism::callsession::{get_call_session_id, set_call_session, stored_or_fresh_session, CallSession};
use dioxus_extism::persistence::JsonFilePersistence;
use dioxus_extism::protocol::{ClientCapabilities, PluginId, SessionId};
use dioxus_extism::keymap::KeyMap;
use dioxus_extism::state::{expired_sessions, StateStore};
use dioxus_extism::testkit::MockSession;
use serde_json::Value;

fn sid(s: &str) -> SessionId {
    SessionId(s.to_string())
}

fn pid(s: &str) -> PluginId {
    PluginId(s.to_string())
}

#[test]
fn session_read_after_write() {
    let mut st = StateStore::new();
    assert_eq!(st.session_get(&sid("s1"), &pid("p"), "k"), None);
    st.session_set(&sid("s1"), &pid("p"), "k".to_string(), Value::from(1));
    assert_eq!(st.session_get(&sid("s1"), &pid("p"), "k"), Some(Value::from(1)));
    st.session_set(&sid("s1"), &pid("p"), "k".to_string(), Value::from(2));
    assert_eq!(st.session_get(&sid("s1"), &pid("p"), "k"), Some(Value::from(2)));
    // Other sessions, plugins and keys are untouched.
    assert_eq!(st.session_get(&sid("s2"), &pid("p"), "k"), None);
    assert_eq!(st.session_get(&sid("s1"), &pid("q"), "k"), None);
    assert_eq!(st.session_get(&sid("s1"), &pid("p"), "other"), None);
    assert_eq!(st.global_get(&pid("p"), "k"), None);
}

#[test]
fn session_delete_and_eviction() {
    let mut st = StateStore::new();
    st.session_set(&sid("s1"), &pid("p"), "a".to_string(), Value::from("x"));
    st.session_set(&sid("s1"), &pid("p"), "b".to_string(), Value::from("y"));
    st.session_delete(&sid("s1"), &pid("p"), "a");
    assert_eq!(st.session_get(&sid("s1"), &pid("p"), "a"), None);
    assert_eq!(st.session_get(&sid("s1"), &pid("p"), "b"), Some(Value::from("y")));
    st.session_delete(&sid("nope"), &pid("p"), "b");
    st.remove_session(&sid("s1"));
    assert_eq!(st.session_get(&sid("s1"), &pid("p"), "b"), None);
}

#[test]
fn global_state_and_snapshot() {
    let mut st = StateStore::new();
    st.global_set(&pid("p"), "count".to_string(), Value::from(3));
    st.global_set(&pid("p"), "name".to_string(), Value::from("n"));
    assert_eq!(st.global_get(&pid("p"), "count"), Some(Value::from(3)));
    let snap = st.global_snapshot(&pid("p")).unwrap();
    assert_eq!(snap.len(), 2);
    assert!(snap.contains(&("count".to_string(), Value::from(3))));
    assert!(st.global_snapshot(&pid("q")).is_none());
}

#[test]
fn call_session_round_trip() {
    let mut slot = CallSession::new();
    assert_eq!(get_call_session_id(&slot), sid(""));
    set_call_session(&mut slot, sid("abc"), ClientCapabilities::default_ssr());
    assert_eq!(get_call_session_id(&slot), sid("abc"));
}

#[test]
fn mock_session_builds_context() {
    let ctx = MockSession::new()
        .with_session_id("s-9")
        .with_user_id("u-1")
        .with_app_version(4)
        .with_protocol_version(2)
        .with_host_component("Avatar")
        .as_ctx();
    assert_eq!(ctx.session_id, sid("s-9"));
    assert_eq!(ctx.user_id.as_deref(), Some("u-1"));
    assert_eq!(ctx.client.app_version, 4);
    assert_eq!(ctx.client.protocol_version, 2);
    assert_eq!(ctx.client.registered_host_components, vec!["Avatar".to_string()]);
    assert!(ctx.caller.is_none());
    let d = MockSession::new().as_ctx();
    assert_eq!(d.session_id, sid("test-session"));
}

#[test]
fn state_file_names() {
    assert_eq!(JsonFilePersistence::file_name_for(&pid("acme/cart")), "acme_cart.json");
    let p = JsonFilePersistence::new(std::path::PathBuf::from("/var/state"));
    assert_eq!(p.path_for(&pid("a/b/c")), std::path::PathBuf::from("/var/state/a_b_c.json"));
}

fn ttl_store(last_access_ago_ms: u64) -> (StateStore, KeyMap<SessionId, u64>, PluginId, SessionId) {
    let mut store = StateStore::new();
    let plugin_id = PluginId("test/p".to_string());
    let session_id = SessionId("s1".to_string());
    store.session_set(&session_id, &plugin_id, "key".to_string(), serde_json::Value::String("value".to_string()));
    let now: u64 = 10_000;
    let mut access = KeyMap::new();
    access.insert(session_id.clone(), now - last_access_ago_ms);
    (store, access, plugin_id, session_id)
}

#[test]
fn session_ttl_within_ttl_not_evicted() {
    let ttl: u64 = 200;
    let (mut store, mut access, plugin_id, session_id) = ttl_store(ttl / 2);
    store.evict_expired(&mut access, 10_000 - ttl);
    assert!(store.session_get(&session_id, &plugin_id, "key").is_some(), "session state evicted too early");
    assert_eq!(access.len(), 1);
}

#[test]
fn session_ttl_beyond_ttl_is_evicted() {
    let ttl: u64 = 200;
    let (mut store, mut access, plugin_id, session_id) = ttl_store(ttl + 1000);
    store.evict_expired(&mut access, 10_000 - ttl);
    assert!(store.session_get(&session_id, &plugin_id, "key").is_none(), "session state should have been evicted after TTL");
    assert_eq!(access.len(), 0);
}

#[test]
fn expired_sessions_lists_only_old_ones() {
    let mut access = KeyMap::new();
    access.insert(SessionId("a".to_string()), 5u64);
    access.insert(SessionId("b".to_string()), 50u64);
    access.insert(SessionId("c".to_string()), 9u64);
    let ids: Vec<String> = expired_sessions(&access, 10).into_iter().map(|s| s.0).collect();
    assert_eq!(ids, vec!["a".to_string(), "c".to_string()]);
}

#[test]
fn device_session_is_reused_when_stored() {
    assert_eq!(stored_or_fresh_session(Some("abc".to_string()), "new".to_string()).0, "abc");
    assert_eq!(stored_or_fresh_session(Some(String::new()), "new".to_string()).0, "new");
    assert_eq!(stored_or_fresh_session(None, "new".to_string()).0, "new");
}
