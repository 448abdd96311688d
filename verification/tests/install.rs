use dioxus_extism::errors::{ManifestExtensionError, PluginRuntimeError};
use dioxus_extism::install::{
    check_not_installed, check_protocol, check_trust, custom_check_outcome, extension_verdict, grant_capabilities,
    host_of_url, ExtensionVerdict, GrantStep, OnUnknownExtension,
};
use dioxus_extism::keymap::KeyMap;
use dioxus_extism::protocol::{HostCapability, PluginId, PluginManifest, PROTOCOL_VERSION};
use dioxus_extism::trust::TrustTag;

fn pid() -> PluginId {
    PluginId("acme/p".to_string())
}

fn denied(step: GrantStep) -> String {
    match step {
        GrantStep::Refused(PluginRuntimeError::CapabilityDenied { capability, .. }) => capability,
        _ => panic!("expected a refusal"),
    }
}

#[test]
fn grants_collect_capabilities() {
    let caps = vec![
        HostCapability::Invoke { names: vec!["send".to_string()] },
        HostCapability::GlobalStateRead { keys: vec!["k1".to_string()] },
        HostCapability::Http { allowed_hosts: vec!["api.example.com".to_string()] },
        HostCapability::ReadPluginState { plugin_id: PluginId("other".to_string()), keys: vec!["a".to_string()] },
        HostCapability::ReadPluginState { plugin_id: PluginId("other".to_string()), keys: vec!["b".to_string()] },
    ];
    let mut registered = KeyMap::new();
    registered.insert("send".to_string(), ());
    match grant_capabilities(&pid(), &caps, Some(&registered), &vec![]) {
        GrantStep::Granted(g) => {
            assert!(g.allows_invocation("send"));
            assert!(!g.allows_invocation("other"));
            assert!(g.allows_global_read("k1"));
            assert!(!g.allows_global_read("k2"));
            assert!(!g.allows_global_write("anything"));
            assert!(g.allows_http_host("api.example.com"));
            assert!(!g.allows_http_host("evil.example.com"));
            assert_eq!(g.plugin_state_reads.get("other").unwrap(), &vec!["a".to_string(), "b".to_string()]);
        }
        _ => panic!("expected grants"),
    }
}

#[test]
fn unregistered_invocation_is_refused_only_when_checked() {
    let caps = vec![HostCapability::Invoke { names: vec!["send".to_string(), "nope".to_string()] }];
    let mut registered = KeyMap::new();
    registered.insert("send".to_string(), ());
    assert_eq!(denied(grant_capabilities(&pid(), &caps, Some(&registered), &vec![])), "Invoke(nope): not registered");
    assert!(matches!(grant_capabilities(&pid(), &caps, None, &vec![]), GrantStep::Granted(_)));
}

#[test]
fn custom_capabilities_ask_for_checks_in_order() {
    let caps = vec![
        HostCapability::Custom { namespace: "billing".to_string(), value: serde_json::Value::Null },
        HostCapability::GlobalStateWrite { keys: vec!["w".to_string()] },
        HostCapability::Custom { namespace: "geo".to_string(), value: serde_json::Value::Null },
    ];
    assert!(matches!(grant_capabilities(&pid(), &caps, None, &vec![]), GrantStep::Check(0)));
    assert!(matches!(grant_capabilities(&pid(), &caps, None, &vec![Some(Ok(()))]), GrantStep::Check(2)));
    assert!(matches!(grant_capabilities(&pid(), &caps, None, &vec![Some(Ok(())), Some(Ok(()))]), GrantStep::Granted(_)));
    assert_eq!(denied(grant_capabilities(&pid(), &caps, None, &vec![None])), "Custom(billing): no check registered");
    assert_eq!(
        denied(grant_capabilities(&pid(), &caps, None, &vec![Some(Ok(())), Some(Err("region".to_string()))])),
        "Custom(geo): region"
    );
}

#[test]
fn custom_outcomes() {
    assert!(custom_check_outcome(&pid(), "ns", Some(Ok(()))).is_ok());
    match custom_check_outcome(&pid(), "ns", None) {
        Err(PluginRuntimeError::CapabilityDenied { capability, .. }) => assert_eq!(capability, "Custom(ns): no check registered"),
        _ => panic!("expected a denial"),
    }
}

#[test]
fn request_hosts() {
    assert_eq!(host_of_url("https://api.example.com/v1/x"), "api.example.com");
    assert_eq!(host_of_url("http://localhost:8080/"), "localhost");
    assert_eq!(host_of_url("example.com/path"), "example.com");
    assert_eq!(host_of_url("https://a.com/x://b"), "a.com");
    assert_eq!(host_of_url("https://user@host:1"), "user@host");
    assert_eq!(host_of_url(""), "");
}

#[test]
fn gates() {
    let mut m = PluginManifest::default();
    m.min_protocol_version = PROTOCOL_VERSION + 1;
    assert!(matches!(check_protocol(&m), Err(PluginRuntimeError::ProtocolVersionMismatch { .. })));
    m.min_protocol_version = PROTOCOL_VERSION;
    assert!(check_protocol(&m).is_ok());
    assert!(check_not_installed(&pid(), false).is_ok());
    match check_not_installed(&pid(), true) {
        Err(PluginRuntimeError::CapabilityDenied { capability, .. }) => {
            assert_eq!(capability, "plugin already installed; use reload_plugin to update")
        }
        _ => panic!("expected a denial"),
    }
    let unverified = TrustTag { verified: false, signer_key_id: None };
    assert!(check_trust(&pid(), &unverified, false).is_ok());
    assert!(matches!(check_trust(&pid(), &unverified, true), Err(PluginRuntimeError::UntrustedPlugin(_))));
}

#[test]
fn extension_verdicts() {
    assert!(matches!(extension_verdict(&pid(), "ns", Some(Ok(())), &OnUnknownExtension::Error), Ok(ExtensionVerdict::Accept)));
    assert!(matches!(extension_verdict(&pid(), "ns", None, &OnUnknownExtension::Warn), Ok(ExtensionVerdict::WarnUnknown)));
    assert!(matches!(extension_verdict(&pid(), "ns", None, &OnUnknownExtension::Ignore), Ok(ExtensionVerdict::Accept)));
    assert!(matches!(
        extension_verdict(&pid(), "ns", None, &OnUnknownExtension::Error),
        Err(PluginRuntimeError::UnknownManifestExtension { .. })
    ));
    let err = ManifestExtensionError::ValidationFailed { namespace: "ns".to_string(), message: "bad".to_string() };
    assert!(matches!(
        extension_verdict(&pid(), "ns", Some(Err(err)), &OnUnknownExtension::Ignore),
        Err(PluginRuntimeError::ManifestExtension { .. })
    ));
}

#[test]
fn plugin_state_reads_are_capability_gated() {
    let caps = vec![
        HostCapability::ReadPluginState { plugin_id: PluginId("other".to_string()), keys: vec!["a".to_string()] },
        HostCapability::ReadPluginState { plugin_id: PluginId("open".to_string()), keys: vec![] },
    ];
    match grant_capabilities(&pid(), &caps, None, &vec![]) {
        GrantStep::Granted(g) => {
            assert!(g.allows_plugin_state_read(&PluginId("other".to_string()), "a"));
            assert!(!g.allows_plugin_state_read(&PluginId("other".to_string()), "b"));
            assert!(g.allows_plugin_state_read(&PluginId("open".to_string()), "anything"));
            assert!(!g.allows_plugin_state_read(&PluginId("third".to_string()), "a"));
        }
        _ => panic!("expected the capabilities to be granted"),
    }
}

#[test]
fn global_write_needs_a_grant() {
    let none: Vec<HostCapability> = vec![];
    match grant_capabilities(&pid(), &none, None, &vec![]) {
        GrantStep::Granted(g) => assert!(!g.allows_global_write("x")),
        _ => panic!("expected grants"),
    }
    let caps = vec![HostCapability::GlobalStateWrite { keys: vec!["x".to_string()] }];
    match grant_capabilities(&pid(), &caps, None, &vec![]) {
        GrantStep::Granted(g) => {
            assert!(g.allows_global_write("x"));
            assert!(!g.allows_global_write("y"));
        }
        _ => panic!("expected grants"),
    }
}
