use dioxus_extism::bundle::{pick_single_wasm, synthesise_trust_group, BundlePluginEntry, BundleSource};
use dioxus_extism::dispatch::usize_text;
use dioxus_extism::errors::PluginRuntimeError;
use dioxus_extism::keymap::KeyMap;
use dioxus_extism::protocol::PluginId;

#[test]
fn synthesise_trust_group_empty_fns_skipped() {
    let ids = vec![PluginId("a".to_string()), PluginId("b".to_string())];
    let public: KeyMap<PluginId, Vec<String>> = KeyMap::new();
    let result = synthesise_trust_group(&ids, &public);
    assert_eq!(result.len(), 0, "no deps when no public fns");
}

#[test]
fn synthesise_trust_group_creates_mutual_deps() {
    let ids = vec![PluginId("a".to_string()), PluginId("b".to_string())];
    let mut public = KeyMap::new();
    public.insert(PluginId("a".to_string()), vec!["fn_a".to_string()]);
    public.insert(PluginId("b".to_string()), vec!["fn_b".to_string()]);
    let result = synthesise_trust_group(&ids, &public);

    let a_deps = result.get("a").expect("a has deps");
    assert_eq!(a_deps.len(), 1);
    assert_eq!(a_deps[0].id.0, "b");
    assert_eq!(a_deps[0].functions, vec!["fn_b".to_string()]);

    let b_deps = result.get("b").expect("b has deps");
    assert_eq!(b_deps.len(), 1);
    assert_eq!(b_deps[0].id.0, "a");
    assert_eq!(b_deps[0].functions, vec!["fn_a".to_string()]);
}

#[test]
fn synthesised_deps_are_required_at_any_version() {
    let ids = vec![PluginId("a".to_string()), PluginId("b".to_string()), PluginId("c".to_string())];
    let mut public = KeyMap::new();
    public.insert(PluginId("b".to_string()), vec!["x".to_string(), "y".to_string()]);
    let result = synthesise_trust_group(&ids, &public);
    // b has no sibling with public functions; a and c both depend on b.
    assert!(result.get("b").is_none());
    for id in ["a", "c"] {
        let deps = result.get(id).unwrap();
        assert_eq!(deps.len(), 1);
        assert_eq!(deps[0].id.0, "b");
        assert_eq!(deps[0].version.0, "*");
        assert!(deps[0].required);
        assert_eq!(deps[0].functions, vec!["x".to_string(), "y".to_string()]);
    }
}

#[test]
fn plugin_path_joins_the_bundle_directory() {
    let src = BundleSource::Directory(std::path::PathBuf::from("/bundles/shop"));
    let entry = BundlePluginEntry { id: PluginId("acme/cart".to_string()), path: "cart".to_string() };
    assert_eq!(src.plugin_path(&entry), std::path::PathBuf::from("/bundles/shop/cart"));
}

fn entry(path: &str, ext: Option<&str>) -> (std::path::PathBuf, Option<String>) {
    (std::path::PathBuf::from(path), ext.map(|e| e.to_string()))
}

#[test]
fn single_wasm_is_picked() {
    let entries = vec![
        entry("/plugins/a/README", None),
        entry("/plugins/a/a.wasm", Some("wasm")),
        entry("/plugins/a/a.toml", Some("toml")),
    ];
    assert_eq!(pick_single_wasm(entries, "/plugins/a").unwrap(), std::path::PathBuf::from("/plugins/a/a.wasm"));
}

#[test]
fn no_or_many_wasm_files_are_errors() {
    match pick_single_wasm(vec![entry("/plugins/a/x.txt", Some("txt"))], "/plugins/a") {
        Err(PluginRuntimeError::Pool(m)) => assert_eq!(m, "no .wasm file found in /plugins/a"),
        other => panic!("unexpected {other:?}"),
    }
    let two = vec![entry("x.wasm", Some("wasm")), entry("y.wasm", Some("wasm"))];
    match pick_single_wasm(two, "d") {
        Err(PluginRuntimeError::Pool(m)) => assert_eq!(m, "2 .wasm files found in d; expected exactly one"),
        other => panic!("unexpected {other:?}"),
    }
}

#[test]
fn usize_in_decimal() {
    assert_eq!(usize_text(0), "0");
    assert_eq!(usize_text(12), "12");
    assert_eq!(usize_text(1_000_007), "1000007");
}
