use dioxus_extism::dep_graph::{check_version_match, version_check_outcome, DepGraph, PluginDepInfo};
use dioxus_extism::errors::InstallError;
use dioxus_extism::protocol::{PluginDependency, PluginId};

fn pid(s: &str) -> PluginId {
    PluginId(s.to_string())
}

fn info(version: &str, deps: Vec<PluginDependency>) -> PluginDepInfo {
    PluginDepInfo { version: version.to_string(), requires: deps }
}

fn req_dep(id: &str, version: &str) -> PluginDependency {
    PluginDependency::new(id, version, true, vec![])
}

fn opt_dep(id: &str, version: &str) -> PluginDependency {
    PluginDependency::new(id, version, false, vec![])
}

#[test]
fn no_deps_is_acyclic() {
    let mut g = DepGraph::new();
    g.insert(pid("a"), info("1.0.0", vec![]));
    g.insert(pid("b"), info("1.0.0", vec![]));
    assert!(g.check_acyclic().is_ok());
}

#[test]
fn linear_chain_is_acyclic() {
    let mut g = DepGraph::new();
    g.insert(pid("a"), info("1.0.0", vec![req_dep("b", "^1.0")]));
    g.insert(pid("b"), info("1.0.0", vec![req_dep("c", "^1.0")]));
    g.insert(pid("c"), info("1.0.0", vec![]));
    assert!(g.check_acyclic().is_ok());
}

#[test]
fn two_node_cycle_detected() {
    let mut g = DepGraph::new();
    g.insert(pid("a"), info("1.0.0", vec![req_dep("b", "^1.0")]));
    g.insert(pid("b"), info("1.0.0", vec![req_dep("a", "^1.0")]));
    assert!(matches!(g.check_acyclic(), Err(InstallError::CyclicDependency { .. })));
}

#[test]
fn version_mismatch_detected() {
    let mut g = DepGraph::new();
    g.insert(pid("b"), info("2.0.0", vec![]));
    let deps = vec![req_dep("b", "^1.0")];
    assert!(matches!(
        g.validate_required_deps(&pid("a"), &deps),
        Err(InstallError::DependencyVersionConflict { .. })
    ));
}

#[test]
fn version_match_succeeds() {
    let mut g = DepGraph::new();
    g.insert(pid("b"), info("1.5.0", vec![]));
    let deps = vec![req_dep("b", "^1.0")];
    assert!(g.validate_required_deps(&pid("a"), &deps).is_ok());
}

#[test]
fn cycle_lists_cycle_and_what_it_reaches_once_each() {
    // a -> b -> a is a cycle; c is depended on by a; d depends on a but nothing on a cycle depends on d.
    let mut g = DepGraph::new();
    g.insert(pid("a"), info("1.0.0", vec![req_dep("b", "*"), req_dep("c", "*"), req_dep("b", "*")]));
    g.insert(pid("b"), info("1.0.0", vec![req_dep("a", "*")]));
    g.insert(pid("c"), info("1.0.0", vec![]));
    g.insert(pid("d"), info("1.0.0", vec![req_dep("a", "*")]));
    match g.check_acyclic() {
        Err(InstallError::CyclicDependency { cycle }) => {
            let mut ids: Vec<String> = cycle.iter().map(|p| p.0.clone()).collect();
            ids.sort();
            assert_eq!(ids, vec!["a".to_string(), "b".to_string(), "c".to_string()]);
        }
        other => panic!("expected a cycle, got {other:?}"),
    }
}

#[test]
fn self_dependency_is_a_cycle() {
    let mut g = DepGraph::new();
    g.insert(pid("a"), info("1.0.0", vec![req_dep("a", "*")]));
    assert!(matches!(g.check_acyclic(), Err(InstallError::CyclicDependency { .. })));
}

#[test]
fn dependency_on_absent_plugin_is_no_edge() {
    let mut g = DepGraph::new();
    g.insert(pid("a"), info("1.0.0", vec![req_dep("zz", "*")]));
    assert!(g.check_acyclic().is_ok());
}

#[test]
fn missing_required_dependency_is_reported_first() {
    let mut g = DepGraph::new();
    g.insert(pid("b"), info("2.0.0", vec![]));
    let deps = vec![opt_dep("x", "^1"), req_dep("missing", "^1"), req_dep("b", "^1.0")];
    match g.validate_required_deps(&pid("a"), &deps) {
        Err(InstallError::DependencyMissing { plugin, dependency }) => {
            assert_eq!(plugin, pid("a"));
            assert_eq!(dependency, pid("missing"));
        }
        other => panic!("expected a missing dependency, got {other:?}"),
    }
}

#[test]
fn conflict_reports_constraint_and_found_version() {
    let mut g = DepGraph::new();
    g.insert(pid("b"), info("2.0.0", vec![]));
    match g.validate_required_deps(&pid("a"), &vec![req_dep("b", "^1.0")]) {
        Err(InstallError::DependencyVersionConflict { plugin, dependency, required, found }) => {
            assert_eq!(plugin, pid("a"));
            assert_eq!(dependency, pid("b"));
            assert_eq!(required, "^1.0");
            assert_eq!(found, "2.0.0");
        }
        other => panic!("expected a conflict, got {other:?}"),
    }
}

#[test]
fn unparsable_version_is_a_conflict() {
    assert!(check_version_match(&pid("a"), &pid("b"), "^1.0", "not-a-version").is_err());
    assert!(check_version_match(&pid("a"), &pid("b"), "??", "1.0.0").is_err());
    assert!(check_version_match(&pid("a"), &pid("b"), "*", "3.2.1").is_ok());
}

#[test]
fn outcome_follows_the_check() {
    assert!(version_check_outcome(&pid("a"), &pid("b"), "^1", "1.2.0", true).is_ok());
    match version_check_outcome(&pid("a"), &pid("b"), "^1", "2.0.0", false) {
        Err(InstallError::DependencyVersionConflict { required, found, .. }) => {
            assert_eq!(required, "^1");
            assert_eq!(found, "2.0.0");
        }
        other => panic!("expected a conflict, got {other:?}"),
    }
}

#[test]
fn optional_dependencies_are_reported_by_index() {
    let mut g = DepGraph::new();
    g.insert(pid("b"), info("1.5.0", vec![]));
    let deps = vec![opt_dep("b", "^1"), req_dep("b", "^1"), opt_dep("c", "^1"), opt_dep("b", "^2")];
    assert_eq!(g.optional_satisfiability(&deps), vec![(0, true), (2, false), (3, false)]);
}

#[test]
fn dependents_by_kind() {
    let mut g = DepGraph::new();
    g.insert(pid("a"), info("1.0.0", vec![req_dep("core", "*")]));
    g.insert(pid("b"), info("1.0.0", vec![opt_dep("core", "*")]));
    g.insert(pid("c"), info("1.0.0", vec![req_dep("core", "*"), opt_dep("core", "*")]));
    let req: Vec<String> = g.required_dependents_of(&pid("core")).iter().map(|p| p.0.clone()).collect();
    let opt: Vec<String> = g.optional_dependents_of(&pid("core")).iter().map(|p| p.0.clone()).collect();
    assert_eq!(req, vec!["a".to_string(), "c".to_string()]);
    assert_eq!(opt, vec!["b".to_string(), "c".to_string()]);
}

#[test]
fn insert_replace_remove_and_lookup() {
    let mut g = DepGraph::new();
    g.insert(pid("a"), info("1.0.0", vec![]));
    assert_eq!(g.version_of(&pid("a")), Some("1.0.0"));
    g.insert(pid("a"), info("1.1.0", vec![]));
    assert_eq!(g.version_of(&pid("a")), Some("1.1.0"));
    assert!(g.contains(&pid("a")));
    g.remove(&pid("a"));
    assert!(!g.contains(&pid("a")));
    assert_eq!(g.version_of(&pid("a")), None);
}
