use dioxus_extism::config::PluginInstallConfig;
use dioxus_extism::errors::PluginRuntimeError;
use dioxus_extism::keymap::KeyMap;
use dioxus_extism::plugins::{build_registries, list_plugins, rebuild_registries, replace_loaded, LoadedPlugin};
use dioxus_extism::protocol::{
    ApiRouteDeclaration, PageRouteDeclaration, PluginId, PluginManifest, PriorityHint, RoutePattern, Selector,
    SlotRegistration, TransformDeclaration, TransformOp,
};
use dioxus_extism::registry::EventBus;
use dioxus_extism::trust::TrustTag;

fn plugin(id: &str, f: impl FnOnce(&mut PluginManifest)) -> (PluginId, LoadedPlugin) {
    let mut manifest = PluginManifest::default();
    manifest.id = PluginId(id.to_string());
    manifest.version = "1.0.0".to_string();
    f(&mut manifest);
    (
        PluginId(id.to_string()),
        LoadedPlugin {
            manifest,
            enabled: true,
            config: PluginInstallConfig::default(),
            trust_tag: TrustTag { verified: false, signer_key_id: None },
        },
    )
}

fn slot(name: &str, hint: PriorityHint) -> SlotRegistration {
    SlotRegistration { name: name.to_string(), priority_hint: hint }
}

fn transform(selector: Selector, f: &str, op: TransformOp) -> TransformDeclaration {
    TransformDeclaration { selector, transform_fn: f.to_string(), op, priority_hint: PriorityHint::Normal }
}

#[test]
fn slots_ordered_by_priority_then_plugin_order() {
    let plugins = vec![
        plugin("a", |m| m.slots.push(slot("side", PriorityHint::Low))),
        plugin("b", |m| m.slots.push(slot("side", PriorityHint::First))),
        plugin("c", |m| m.slots.push(slot("side", PriorityHint::Low))),
    ];
    let regs = build_registries(&plugins, None).unwrap();
    let side = regs.slots.0.get("side").unwrap();
    let ids: Vec<(i32, String)> = side.iter().map(|(p, id)| (*p, id.0.clone())).collect();
    assert_eq!(ids, vec![(1000, "b".to_string()), (250, "a".to_string()), (250, "c".to_string())]);
}

#[test]
fn override_map_collects_targets_and_versions() {
    let plugins = vec![
        plugin("a", |m| {
            m.min_protocol_version = 1;
            m.min_app_version = 7;
            m.transforms.push(transform(Selector::Component("Hero".to_string()), "t1", TransformOp::Replace));
            m.transforms.push(transform(Selector::Route(RoutePattern("/p/:id".to_string())), "t2", TransformOp::Wrap));
            m.transforms.push(transform(Selector::Route(RoutePattern("/p/:id".to_string())), "t3", TransformOp::InjectAfter));
        }),
        plugin("b", |m| {
            m.min_app_version = 3;
            m.transforms.push(transform(Selector::Slot("side".to_string()), "t4", TransformOp::InjectBefore));
        }),
    ];
    let regs = build_registries(&plugins, Some("/p")).unwrap();
    let om = &regs.override_map;
    assert_eq!(om.version, 0);
    assert!(om.overridden_components.contains_key("Hero"));
    assert!(om.transformed_slots.contains_key("side"));
    assert_eq!(om.route_patterns, vec![RoutePattern("/p/:id".to_string())]);
    assert_eq!(om.required_protocol_version, 1);
    assert_eq!(om.required_app_version, 7);
    assert_eq!(om.plugin_requirements.get("b").unwrap().min_app_version, 3);
    assert_eq!(om.page_route_prefix.as_deref(), Some("/p"));
    assert_eq!(regs.transforms.for_route("/p/9").len(), 2);
}

#[test]
fn duplicate_api_route_is_a_conflict() {
    let plugins = vec![
        plugin("a", |m| m.api_routes.push(ApiRouteDeclaration::get("/api/x", "h1"))),
        plugin("b", |m| {
            m.api_routes.push(ApiRouteDeclaration::post("/api/x", "h2"));
            m.api_routes.push(ApiRouteDeclaration::get("/api/x", "h3"));
        }),
    ];
    match build_registries(&plugins, None) {
        Err(PluginRuntimeError::ApiRouteConflict { method, path, first, second }) => {
            assert_eq!(method, "GET");
            assert_eq!(path, "/api/x");
            assert_eq!(first.0, "a");
            assert_eq!(second.0, "b");
        }
        Err(e) => panic!("unexpected error {e:?}"),
        Ok(_) => panic!("expected a conflict"),
    }
}

#[test]
fn duplicate_page_route_is_a_conflict() {
    let page = |p: &str| PageRouteDeclaration {
        path: p.to_string(),
        title: None,
        render_fn: "render".to_string(),
        bypass_layout: false,
    };
    let plugins = vec![
        plugin("a", |m| m.page_routes.push(page("/orders"))),
        plugin("b", |m| m.page_routes.push(page("/orders"))),
    ];
    match build_registries(&plugins, None) {
        Err(PluginRuntimeError::PageRouteConflict { path, first, second }) => {
            assert_eq!(path, "/orders");
            assert_eq!(first.0, "a");
            assert_eq!(second.0, "b");
        }
        Err(e) => panic!("unexpected error {e:?}"),
        Ok(_) => panic!("expected a conflict"),
    }
}

#[test]
fn page_route_lookup_takes_first_match() {
    let page = |p: &str, f: &str| PageRouteDeclaration {
        path: p.to_string(),
        title: Some("T".to_string()),
        render_fn: f.to_string(),
        bypass_layout: true,
    };
    let plugins = vec![plugin("a", |m| {
        m.page_routes.push(page("/orders/:id", "one"));
        m.page_routes.push(page("/:section/:id", "two"));
    })];
    let regs = build_registries(&plugins, None).unwrap();
    let (entry, params) = regs.page_routes.find("/orders/7").unwrap();
    assert_eq!(entry.handler_fn, "one");
    assert_eq!(params.get("id").unwrap(), "7");
    let (entry, params) = regs.page_routes.find("/users/7").unwrap();
    assert_eq!(entry.handler_fn, "two");
    assert_eq!(params.get("section").unwrap(), "users");
    assert!(regs.page_routes.find("/a/b/c").is_none());
}

#[test]
fn events_use_the_event_priority() {
    let mut overrides = KeyMap::new();
    overrides.insert("__event__".to_string(), 900);
    let mut b = plugin("b", |m| m.event_subscriptions.push("saved".to_string()));
    b.1.config.overrides = overrides;
    let plugins = vec![plugin("a", |m| m.event_subscriptions.push("saved".to_string())), b];
    let bus = EventBus::build_from_plugins(&plugins);
    let subs = bus.subscribers.get("saved").unwrap();
    assert_eq!(subs.iter().map(|(p, id)| (*p, id.0.as_str())).collect::<Vec<_>>(), vec![(900, "b"), (500, "a")]);
}

#[test]
fn summaries_follow_plugin_order() {
    let plugins = vec![plugin("a", |_| {}), plugin("b", |m| m.min_app_version = 2)];
    let s = list_plugins(&plugins);
    assert_eq!(s.len(), 2);
    assert_eq!(s[0].id.0, "a");
    assert_eq!(s[1].min_app_version, 2);
    assert!(s[1].enabled);
}

#[test]
fn rebuild_bumps_override_version() {
    let plugins = vec![plugin("a", |m| m.slots.push(slot("header", PriorityHint::High)))];
    let regs = rebuild_registries(&plugins, Some("/p"), 4).unwrap();
    assert_eq!(regs.override_map.version, 5);
    assert_eq!(regs.override_map.page_route_prefix.as_deref(), Some("/p"));
    assert!(regs.slots.0.get("header").is_some());
    let fresh = build_registries(&plugins, None).unwrap();
    assert_eq!(fresh.override_map.version, 0);
}

#[test]
fn reload_keeps_the_plugin_in_place() {
    let mut plugins = vec![plugin("a", |_| {}), plugin("b", |_| {}), plugin("c", |_| {})];
    let (_, mut new_b) = plugin("b", |m| m.version = "2.0.0".to_string());
    new_b.enabled = false;
    assert!(replace_loaded(&mut plugins, &PluginId("b".to_string()), new_b));
    let ids: Vec<&str> = plugins.iter().map(|(id, _)| id.0.as_str()).collect();
    assert_eq!(ids, vec!["a", "b", "c"]);
    assert_eq!(plugins[1].1.manifest.version, "2.0.0");
    assert!(!plugins[1].1.enabled);
    let (_, other) = plugin("z", |_| {});
    assert!(!replace_loaded(&mut plugins, &PluginId("z".to_string()), other));
    assert_eq!(plugins.len(), 3);
}
