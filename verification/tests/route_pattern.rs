use dioxus_extism::protocol::{RouteBody, RoutePattern, RouteTransforms};
use dioxus_extism::viewtree::PluginView;

fn pat(s: &str) -> RoutePattern {
    RoutePattern(s.to_string())
}

#[test]
fn matches_single_param() {
    assert!(pat("/product/:id").matches("/product/42"));
}

#[test]
fn rejects_extra_segments() {
    assert!(!pat("/product/:id").matches("/product/42/reviews"));
}

#[test]
fn rejects_wrong_prefix() {
    assert!(!pat("/product/:id").matches("/products/42"));
}

#[test]
fn rejects_trailing_slash() {
    assert!(!pat("/product/:id").matches("/product/42/"));
}

#[test]
fn extracts_single_param() {
    let p = pat("/product/:id");
    let params = p.extract_params("/product/42").unwrap();
    assert_eq!(params.get("id").unwrap(), "42");
}

#[test]
fn extracts_multiple_params() {
    let p = pat("/shop/:shop/item/:id");
    let params = p.extract_params("/shop/acme/item/99").unwrap();
    assert_eq!(params.get("shop").unwrap(), "acme");
    assert_eq!(params.get("id").unwrap(), "99");
}

#[test]
fn root_matches_root() {
    assert!(pat("/").matches("/"));
}

#[test]
fn empty_pattern_does_not_match_rooted_paths() {
    // An empty pattern must not match any rooted path.
    assert!(!pat("").matches("/"));
    assert!(!pat("").matches("/product/42"));
}

#[test]
fn root_pattern_does_not_match_non_root() {
    assert!(!pat("/").matches("/product/42"));
    assert!(!pat("/").matches("/a"));
}

#[test]
fn multi_param_pattern_rejects_short_path() {
    assert!(!pat("/shop/:shop/item/:id").matches("/shop/acme"));
    assert_eq!(pat("/shop/:shop/item/:id").extract_params("/shop/acme"), None);
}

#[test]
fn trailing_slash_on_pattern_only() {
    assert!(!pat("/product/:id/").matches("/product/42"));
}

#[test]
fn pattern_params_bind_each_named_segment() {
    let params = pat("/:a/x/:b").extract_params("/one/x/two").unwrap();
    assert_eq!(params.len(), 2);
    assert_eq!(params.get("a").unwrap(), "one");
    assert_eq!(params.get("b").unwrap(), "two");
    assert!(params.get("x").is_none());
}

#[test]
fn literal_pattern_binds_nothing() {
    let params = pat("/about").extract_params("/about").unwrap();
    assert_eq!(params.len(), 0);
    assert!(pat("/about").extract_params("/About").is_none());
}

#[test]
fn repeated_param_name_keeps_last_binding() {
    let params = pat("/:id/:id").extract_params("/first/second").unwrap();
    assert_eq!(params.len(), 1);
    assert_eq!(params.get("id").unwrap(), "second");
}

#[test]
fn route_body_prefers_wrap_then_replacement() {
    let t = |s: &str| PluginView::Text(s.to_string());
    let mut rt = RouteTransforms::empty();
    assert!(matches!(rt.body(), RouteBody::Outlet));
    rt.replacement = Some(t("r"));
    assert!(matches!(rt.body(), RouteBody::Replace(v) if v == t("r")));
    rt.wrap = Some(t("w"));
    assert!(matches!(rt.body(), RouteBody::Wrap { wrapper, content: Some(c) } if wrapper == t("w") && c == t("r")));
    rt.replacement = None;
    assert!(matches!(rt.body(), RouteBody::Wrap { content: None, .. }));
}
