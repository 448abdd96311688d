use dioxus_extism::config::PluginInstallConfig;
use dioxus_extism::keymap::KeyMap;
use dioxus_extism::protocol::PriorityHint;

#[test]
fn resolve_priority_tier_precedence() {
    let mut overrides = KeyMap::new();
    overrides.insert("slot_a".to_string(), 999);
    let cfg = PluginInstallConfig { overrides, base_priority: Some(500), ..Default::default() };
    // Per-name override wins over base_priority and hint.
    assert_eq!(cfg.resolve("slot_a", &PriorityHint::Normal), 999);
    // base_priority wins over hint when no name override exists.
    assert_eq!(cfg.resolve("slot_b", &PriorityHint::Normal), 500);
    // hint used when neither override nor base_priority is set.
    assert_eq!(PluginInstallConfig::default().resolve("slot_c", &PriorityHint::High), 750);
}

#[test]
fn hint_buckets() {
    let cfg = PluginInstallConfig::default();
    assert_eq!(cfg.resolve("x", &PriorityHint::First), 1000);
    assert_eq!(cfg.resolve("x", &PriorityHint::High), 750);
    assert_eq!(cfg.resolve("x", &PriorityHint::Normal), 500);
    assert_eq!(cfg.resolve("x", &PriorityHint::Low), 250);
    assert_eq!(cfg.resolve("x", &PriorityHint::Last), 0);
}
