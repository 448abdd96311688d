use dioxus_extism::protocol::{HandlerId, NodeSelector};
use dioxus_extism::tree::{
    add_class_to_view, find_recursive_matching, first_handler, string_attr, find_shallow_matching, node_matches, resolve_target_in_view,
    set_attr_on_view, view_contains_content_placeholder,
};
use dioxus_extism::viewtree::{AttrValue, BoundEventHandler, DomEvent, HostComponentRef, PluginView, ViewElement};

fn el(tag: &str, attrs: Vec<(&str, &str)>, name: Option<&str>, children: Vec<PluginView>) -> PluginView {
    PluginView::Element(ViewElement {
        tag: tag.to_string(),
        name: name.map(|n| n.to_string()),
        key: None,
        attrs: attrs.into_iter().map(|(k, v)| (k.to_string(), AttrValue::String(v.to_string()))).collect(),
        handlers: vec![],
        children,
    })
}

fn make_tree() -> PluginView {
    el(
        "div",
        vec![],
        None,
        vec![
            el("span", vec![("class", "badge important")], Some("the-badge"), vec![PluginView::Text("42".to_string())]),
            el("button", vec![("data-plugin-slot", "actions")], None, vec![]),
        ],
    )
}

fn tag_of(v: &PluginView) -> &str {
    match v {
        PluginView::Element(e) => e.tag.as_str(),
        _ => "",
    }
}

#[test]
fn has_class_shallow_match() {
    let tree = make_tree();
    let m = find_shallow_matching(&tree, &NodeSelector::HasClass("badge".to_string()));
    assert_eq!(m.len(), 1);
}

#[test]
fn data_attr_shallow_match() {
    let tree = make_tree();
    let m = find_shallow_matching(
        &tree,
        &NodeSelector::DataAttr("data-plugin-slot".to_string(), "actions".to_string()),
    );
    assert_eq!(m.len(), 1);
}

#[test]
fn name_shallow_match() {
    let tree = make_tree();
    let m = find_shallow_matching(&tree, &NodeSelector::Name("the-badge".to_string()));
    assert_eq!(m.len(), 1);
}

#[test]
fn shallow_does_not_find_deep() {
    let outer = el("section", vec![], None, vec![make_tree()]);
    let m = find_shallow_matching(&outer, &NodeSelector::HasClass("badge".to_string()));
    assert_eq!(m.len(), 0, "shallow must not descend into grandchildren");
}

#[test]
fn recursive_finds_deep() {
    let outer = el("section", vec![], None, vec![make_tree()]);
    let m = find_recursive_matching(
        &outer,
        &NodeSelector::Recursive(Box::new(NodeSelector::HasClass("badge".to_string()))),
    );
    assert_eq!(m.len(), 1);
}

#[test]
fn node_matches_tag() {
    let b = el("button", vec![], None, vec![]);
    assert!(node_matches(&b, &NodeSelector::Tag("button".to_string())));
    assert!(!node_matches(&b, &NodeSelector::Tag("div".to_string())));
}

#[test]
fn node_matches_recursive_delegates_to_inner() {
    let span = el("span", vec![("class", "badge")], None, vec![]);
    let recursive_sel = NodeSelector::Recursive(Box::new(NodeSelector::HasClass("badge".to_string())));
    assert!(node_matches(&span, &recursive_sel));
    let other = el("div", vec![], None, vec![]);
    assert!(!node_matches(&other, &recursive_sel));
}

#[test]
fn find_shallow_first_last() {
    let tree = make_tree();
    let first = find_shallow_matching(&tree, &NodeSelector::First);
    let last = find_shallow_matching(&tree, &NodeSelector::Last);
    assert_eq!(first.len(), 1);
    assert_eq!(last.len(), 1);
    assert_eq!(tag_of(first[0]), "span");
    assert_eq!(tag_of(last[0]), "button");
}

#[test]
fn find_shallow_index() {
    let tree = make_tree();
    let at_1 = find_shallow_matching(&tree, &NodeSelector::Index(1));
    assert_eq!(at_1.len(), 1);
    assert_eq!(tag_of(at_1[0]), "button");
    let out_of_range = find_shallow_matching(&tree, &NodeSelector::Index(99));
    assert!(out_of_range.is_empty());
}

#[test]
fn add_class_appends() {
    let v = add_class_to_view(el("div", vec![("class", "a")], None, vec![]), "b".to_string());
    match &v {
        PluginView::Element(e) => assert_eq!(e.attrs, vec![("class".to_string(), AttrValue::String("a b".to_string()))]),
        _ => panic!("expected an element"),
    }
    let again = add_class_to_view(v, "b".to_string());
    match &again {
        PluginView::Element(e) => assert_eq!(e.attrs, vec![("class".to_string(), AttrValue::String("a b b".to_string()))]),
        _ => panic!("expected an element"),
    }
    let fresh = add_class_to_view(el("div", vec![], None, vec![]), "x".to_string());
    match &fresh {
        PluginView::Element(e) => assert_eq!(e.attrs, vec![("class".to_string(), AttrValue::String("x".to_string()))]),
        _ => panic!("expected an element"),
    }
}

#[test]
fn set_attr_replaces_or_appends() {
    let v = set_attr_on_view(el("a", vec![("href", "/x")], None, vec![]), "href".to_string(), AttrValue::String("/y".to_string()));
    match &v {
        PluginView::Element(e) => assert_eq!(e.attrs, vec![("href".to_string(), AttrValue::String("/y".to_string()))]),
        _ => panic!("expected an element"),
    }
    let t = set_attr_on_view(PluginView::Text("t".to_string()), "k".to_string(), AttrValue::Bool(true));
    assert_eq!(t, PluginView::Text("t".to_string()));
}

#[test]
fn wrap_target_replaces_placeholder() {
    let target = el("p", vec![], None, vec![]);
    let placeholder = PluginView::HostComponent(HostComponentRef {
        name: "__target__".to_string(),
        props: serde_json::Value::Null,
        children: vec![],
    });
    let wrapper = el("div", vec![], None, vec![placeholder]);
    let out = resolve_target_in_view(wrapper, target.clone());
    assert_eq!(out, el("div", vec![], None, vec![target]));
}

#[test]
fn content_placeholder_found_at_depth() {
    let placeholder = PluginView::HostComponent(HostComponentRef {
        name: "__content__".to_string(),
        props: serde_json::Value::Null,
        children: vec![],
    });
    let deep = el("div", vec![], None, vec![PluginView::Fragment(vec![placeholder])]);
    assert!(view_contains_content_placeholder(&deep));
    assert!(!view_contains_content_placeholder(&make_tree()));
}

#[test]
fn renderer_reads_first_string_attr_and_first_handler() {
    let attrs = vec![
        ("class".to_string(), AttrValue::String("a".to_string())),
        ("class".to_string(), AttrValue::String("b".to_string())),
        ("disabled".to_string(), AttrValue::Bool(true)),
    ];
    assert_eq!(string_attr(&attrs, "class"), "a");
    assert_eq!(string_attr(&attrs, "disabled"), "");
    assert_eq!(string_attr(&attrs, "id"), "");
    let h = |e: DomEvent, id: &str| BoundEventHandler { event: e, handler_id: HandlerId(id.to_string()), debounce_ms: None };
    let handlers = vec![h(DomEvent::Input, "i1"), h(DomEvent::Click, "c1"), h(DomEvent::Click, "c2")];
    assert_eq!(first_handler(&handlers, DomEvent::Click), Some(HandlerId("c1".to_string())));
    assert_eq!(first_handler(&handlers, DomEvent::Submit), None);
}
