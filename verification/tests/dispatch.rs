use dioxus_extism::errors::PluginRuntimeError;
use dioxus_extism::config::PluginInstallConfig;
use dioxus_extism::dispatch::{
    check_callable, colon_params_to_braces, hook_export_name, replace_step, wrap_step, hook_step, plan_route_transforms, render_failed, slot_step, string_less, u32_text,
    HookStep, SlotStep,
};
use dioxus_extism::plugins::LoadedPlugin;
use dioxus_extism::protocol::{ClientCapabilities, HookResult, PluginId, PluginManifest, TransformOp};
use dioxus_extism::registry::TransformEntry;
use dioxus_extism::trust::TrustTag;
use dioxus_extism::viewtree::PluginView;

fn loaded(min_protocol: u32, min_app: u32, enabled: bool) -> LoadedPlugin {
    let mut manifest = PluginManifest::default();
    manifest.min_protocol_version = min_protocol;
    manifest.min_app_version = min_app;
    LoadedPlugin {
        manifest,
        enabled,
        config: PluginInstallConfig::default(),
        trust_tag: TrustTag { verified: false, signer_key_id: None },
    }
}

fn client(protocol: u32, app: u32) -> ClientCapabilities {
    ClientCapabilities { protocol_version: protocol, app_version: app, registered_host_components: vec![] }
}

fn reason_of(step: SlotStep) -> String {
    match step {
        SlotStep::Serve(c) => match c.view {
            PluginView::Incompatible { reason, .. } => reason,
            _ => panic!("expected Incompatible"),
        },
        _ => panic!("expected served content"),
    }
}

#[test]
fn slot_step_reasons() {
    let id = PluginId("acme/x".to_string());
    assert_eq!(
        reason_of(slot_step(5, &id, Some(&loaded(3, 0, true)), &client(1, 0))),
        "plugin requires protocol 3, client has 1"
    );
    assert_eq!(
        reason_of(slot_step(5, &id, Some(&loaded(1, 12, true)), &client(1, 9))),
        "plugin requires app version 12, client has 9"
    );
    assert_eq!(
        reason_of(slot_step(5, &id, Some(&loaded(1, 0, false)), &client(1, 0))),
        "plugin PluginId(\"acme/x\") is disabled"
    );
    assert!(matches!(slot_step(5, &id, Some(&loaded(1, 0, true)), &client(1, 0)), SlotStep::Render));
    assert!(matches!(slot_step(5, &id, None, &client(1, 0)), SlotStep::Skip));
}

#[test]
fn failed_render_is_served_as_incompatible() {
    let c = render_failed(&PluginId("p".to_string()), 7, "boom");
    assert_eq!(c.priority, 7);
    assert_eq!(c.view, PluginView::Incompatible { reason: "render failed: boom".to_string(), fallback: None });
}

#[test]
fn decimal_text() {
    assert_eq!(u32_text(0), "0");
    assert_eq!(u32_text(7), "7");
    assert_eq!(u32_text(1024), "1024");
    assert_eq!(u32_text(u32::MAX), "4294967295");
}

#[test]
fn hook_export_names() {
    assert_eq!(hook_export_name("before-save"), "hook_before_save");
    assert_eq!(hook_export_name("plain"), "hook_plain");
    assert_eq!(hook_export_name("a-b-c"), "hook_a_b_c");
}

#[test]
fn hook_steps() {
    let id = PluginId("p".to_string());
    assert!(matches!(hook_step(&id, None), HookStep::Keep));
    match hook_step(&id, Some(HookResult::Cancel { reason: "no".to_string() })) {
        HookStep::Stop { by, reason } => {
            assert_eq!(by, id);
            assert_eq!(reason, "no");
        }
        _ => panic!("expected a stop"),
    }
    match hook_step(&id, Some(HookResult::Replace { context: serde_json::Value::Bool(true) })) {
        HookStep::Next(v) => assert_eq!(v, serde_json::Value::Bool(true)),
        _ => panic!("expected the next context"),
    }
}

fn entry(plugin: &str, priority: i32, op: TransformOp) -> TransformEntry {
    TransformEntry {
        plugin_id: PluginId(plugin.to_string()),
        transform_fn: "f".to_string(),
        op,
        priority,
        route_pattern: None,
    }
}

#[test]
fn route_plan_orders_replace_candidates() {
    let entries = vec![
        entry("zeta", 500, TransformOp::RouteReplace),
        entry("w", 900, TransformOp::Wrap),
        entry("alpha", 500, TransformOp::RouteReplace),
        entry("b", 100, TransformOp::InjectBefore),
        entry("mid", 700, TransformOp::RouteReplace),
        entry("x", 100, TransformOp::Replace),
        entry("alpha", 500, TransformOp::RouteReplace),
    ];
    let plan = plan_route_transforms(&entries);
    let order: Vec<(i32, String)> = plan.replace.iter().map(|e| (e.priority, e.plugin_id.0.clone())).collect();
    assert_eq!(
        order,
        vec![
            (700, "mid".to_string()),
            (500, "alpha".to_string()),
            (500, "alpha".to_string()),
            (500, "zeta".to_string())
        ]
    );
    assert_eq!(plan.wrap.len(), 1);
    assert_eq!(plan.inject_before.len(), 1);
    assert!(plan.inject_after.is_empty());
}

#[test]
fn string_order() {
    assert!(string_less("a", "b"));
    assert!(string_less("ab", "abc"));
    assert!(!string_less("abc", "ab"));
    assert!(!string_less("a", "a"));
    assert!(string_less("Z", "a"));
    assert!(string_less("é", "😀"));
}

#[test]
fn api_path_params_become_braces() {
    assert_eq!(colon_params_to_braces("/api/notes/:id"), "/api/notes/{id}");
    assert_eq!(colon_params_to_braces("/api/:a/x/:b"), "/api/{a}/x/{b}");
    assert_eq!(colon_params_to_braces("/api/notes"), "/api/notes");
    assert_eq!(colon_params_to_braces(""), "");
    assert_eq!(colon_params_to_braces("/:"), "/{}");
    assert_eq!(colon_params_to_braces("/a:b"), "/a:b");
}

#[test]
fn direct_calls_need_a_loaded_enabled_plugin() {
    let id = PluginId("p".to_string());
    assert!(matches!(check_callable(&id, None), Err(PluginRuntimeError::PluginNotFound(x)) if x == id));
    let off = loaded(1, 0, false);
    assert!(matches!(check_callable(&id, Some(&off)), Err(PluginRuntimeError::PluginDisabled(x)) if x == id));
    let on = loaded(1, 0, true);
    assert!(check_callable(&id, Some(&on)).is_ok());
}

#[test]
fn route_wrap_fold_and_replace_candidates() {
    let t = |s: &str| PluginView::Text(s.to_string());
    let seed = t("content");
    let after_first = wrap_step(seed, Some(t("w1")));
    assert_eq!(after_first, t("w1"));
    let after_failed = wrap_step(after_first, None);
    assert_eq!(after_failed, t("w1"));
    assert_eq!(replace_step(true, true, Some(t("r"))), Some(t("r")));
    assert_eq!(replace_step(false, true, Some(t("r"))), None);
    assert_eq!(replace_step(true, false, Some(t("r"))), None);
    assert_eq!(replace_step(true, true, None), None);
}
