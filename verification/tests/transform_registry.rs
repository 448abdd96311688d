use dioxus_extism::protocol::{NodeSelector, PluginId, RoutePattern, Selector, TransformOp};
use dioxus_extism::registry::{TransformEntry, TransformRegistry};

fn entry(plugin: &str, priority: i32, op: TransformOp) -> TransformEntry {
    TransformEntry {
        plugin_id: PluginId(plugin.to_string()),
        transform_fn: "fn".to_string(),
        op,
        priority,
        route_pattern: None,
    }
}

#[test]
fn component_transforms_sorted_priority_desc() {
    let mut reg = TransformRegistry::default();
    for p in [100, 750, 500] {
        reg.insert_component("Hero".to_string(), entry("p", p, TransformOp::WrapNode));
    }
    let results = reg.for_component("Hero");
    assert_eq!(results[0].priority, 750);
    assert_eq!(results[1].priority, 500);
    assert_eq!(results[2].priority, 100);
}

#[test]
fn unknown_component_returns_empty() {
    let reg = TransformRegistry::default();
    assert!(reg.for_component("Unknown").is_empty());
}

#[test]
fn route_matches_pattern() {
    let mut reg = TransformRegistry::default();
    reg.insert_route(RoutePattern("/product/:id".to_string()), entry("p", 500, TransformOp::InjectAfter));
    assert_eq!(reg.for_route("/product/42").len(), 1);
    assert!(reg.for_route("/other").is_empty());
}

#[test]
fn insert_route_sets_route_pattern() {
    let mut reg = TransformRegistry::default();
    reg.insert_route(RoutePattern("/product/:id".to_string()), entry("p", 500, TransformOp::Wrap));
    let entries = reg.for_route("/product/42");
    assert_eq!(entries[0].route_pattern.as_deref(), Some("/product/:id"));
}

#[test]
fn slot_transforms_sorted_priority_desc() {
    let mut reg = TransformRegistry::default();
    reg.insert_slot("sidebar".to_string(), entry("a", 100, TransformOp::InjectBefore));
    reg.insert_slot("sidebar".to_string(), entry("b", 900, TransformOp::InjectAfter));
    let results = reg.for_slot("sidebar");
    assert_eq!(results[0].priority, 900);
    assert_eq!(results[1].priority, 100);
}

#[test]
fn all_component_names_returns_registered() {
    let mut reg = TransformRegistry::default();
    reg.insert_component("Hero".to_string(), entry("p", 500, TransformOp::Replace));
    reg.insert_component("Sidebar".to_string(), entry("p", 500, TransformOp::Replace));
    let names = reg.all_component_names();
    assert!(names.iter().any(|n| n == "Hero"));
    assert!(names.iter().any(|n| n == "Sidebar"));
}

#[test]
fn for_route_two_overlapping_patterns_both_returned_priority_sorted() {
    let mut reg = TransformRegistry::default();
    reg.insert_route(RoutePattern("/products/:id".to_string()), entry("p1", 750, TransformOp::Wrap));
    reg.insert_route(RoutePattern("/:category/:id".to_string()), entry("p2", 500, TransformOp::InjectAfter));
    let entries = reg.for_route("/products/42");
    assert_eq!(entries.len(), 2);
    assert!(entries[0].priority >= entries[1].priority);
}

#[test]
fn insert_within_round_trip_isolation() {
    let mut reg = TransformRegistry::default();
    let node_sel = NodeSelector::HasClass("target".to_string());
    let e = entry("p", 500, TransformOp::WrapNode);
    reg.insert_within(Selector::Slot("sidebar".to_string()), node_sel, e);

    assert_eq!(reg.within_for_outer(&Selector::Slot("sidebar".to_string())).len(), 1);
    assert!(reg.within_for_outer(&Selector::Slot("header".to_string())).is_empty());
}

#[test]
fn equal_priorities_keep_insertion_order() {
    let mut reg = TransformRegistry::default();
    reg.insert_slot("s".to_string(), entry("first", 500, TransformOp::InjectBefore));
    reg.insert_slot("s".to_string(), entry("high", 900, TransformOp::InjectBefore));
    reg.insert_slot("s".to_string(), entry("second", 500, TransformOp::InjectBefore));
    reg.insert_slot("s".to_string(), entry("low", 100, TransformOp::InjectBefore));
    let ids: Vec<String> = reg.for_slot("s").iter().map(|e| e.plugin_id.0.clone()).collect();
    assert_eq!(ids, vec!["high", "first", "second", "low"]);
}

#[test]
fn within_outer_matches_by_target_not_by_kind_only() {
    let mut reg = TransformRegistry::default();
    reg.insert_within(Selector::Component("Card".to_string()), NodeSelector::First, entry("p", 1, TransformOp::Replace));
    assert!(reg.within_for_outer(&Selector::Slot("Card".to_string())).is_empty());
    assert_eq!(reg.within_for_outer(&Selector::Component("Card".to_string())).len(), 1);
}

#[test]
fn data_slot_transforms_are_kept_apart() {
    let mut reg = TransformRegistry::default();
    reg.insert_data_slot("actions".to_string(), entry("p", 10, TransformOp::InsertAfter));
    assert_eq!(reg.for_data_slot("actions").len(), 1);
    assert!(reg.for_slot("actions").is_empty());
    assert!(reg.all_slot_names().is_empty());
}
