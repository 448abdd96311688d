use dioxus_extism::protocol::{NodeSelector, SessionCtx, TransformContext, TransformOp};
use dioxus_extism::viewtree::{AttrValue, HostComponentRef, PluginView, ViewElement};
use dioxus_extism::within::{traverse_and_apply, within_call_targets, within_transform_input};

fn el(tag: &str, attrs: Vec<(&str, &str)>, children: Vec<PluginView>) -> PluginView {
    PluginView::Element(ViewElement {
        tag: tag.to_string(),
        name: None,
        key: None,
        attrs: attrs.into_iter().map(|(k, v)| (k.to_string(), AttrValue::String(v.to_string()))).collect(),
        handlers: vec![],
        children,
    })
}

fn text(s: &str) -> PluginView {
    PluginView::Text(s.to_string())
}

fn sample() -> PluginView {
    PluginView::Fragment(vec![
        el("div", vec![], vec![text("a")]),
        el("span", vec![], vec![el("div", vec![], vec![text("deep")])]),
        el("div", vec![], vec![text("b")]),
    ])
}

#[test]
fn within_insert_before_uses_answers_in_order() {
    let view = sample();
    let sel = NodeSelector::Tag("div".to_string());
    let op = TransformOp::InsertBefore;
    let targets = within_call_targets(&view, &sel, &op);
    assert_eq!(targets, vec![el("div", vec![], vec![text("a")]), el("div", vec![], vec![text("b")])]);
    let answers = vec![Some(text("x")), None];
    let out = traverse_and_apply(&view, &sel, &op, &answers);
    assert_eq!(
        out,
        PluginView::Fragment(vec![
            text("x"),
            el("div", vec![], vec![text("a")]),
            el("span", vec![], vec![el("div", vec![], vec![text("deep")])]),
            el("div", vec![], vec![text("b")]),
        ])
    );
}

#[test]
fn within_recursive_selector_reaches_nested_nodes() {
    let view = sample();
    let sel = NodeSelector::Recursive(Box::new(NodeSelector::Tag("div".to_string())));
    let op = TransformOp::Replace;
    let targets = within_call_targets(&view, &sel, &op);
    assert_eq!(targets.len(), 3);
    assert_eq!(targets[1], el("div", vec![], vec![text("deep")]));
    let answers = vec![Some(text("1")), Some(text("2")), Some(text("3"))];
    let out = traverse_and_apply(&view, &sel, &op, &answers);
    assert_eq!(
        out,
        PluginView::Fragment(vec![text("1"), el("span", vec![], vec![text("2")]), text("3")])
    );
}

#[test]
fn within_add_class_needs_no_call() {
    let view = sample();
    let sel = NodeSelector::Tag("div".to_string());
    let op = TransformOp::AddClass("hl".to_string());
    assert!(within_call_targets(&view, &sel, &op).is_empty());
    let out = traverse_and_apply(&view, &sel, &op, &vec![]);
    assert_eq!(
        out,
        PluginView::Fragment(vec![
            el("div", vec![("class", "hl")], vec![text("a")]),
            el("span", vec![], vec![el("div", vec![], vec![text("deep")])]),
            el("div", vec![("class", "hl")], vec![text("b")]),
        ])
    );
}

#[test]
fn within_set_attr_writes_string_or_empty() {
    let view = el("ul", vec![], vec![el("li", vec![], vec![])]);
    let sel = NodeSelector::Tag("li".to_string());
    let out = traverse_and_apply(&view, &sel, &TransformOp::SetAttr("role".to_string(), AttrValue::Bool(true)), &vec![]);
    assert_eq!(out, el("ul", vec![], vec![el("li", vec![("role", "")], vec![])]));
    let out = traverse_and_apply(
        &view,
        &sel,
        &TransformOp::SetAttr("role".to_string(), AttrValue::String("item".to_string())),
        &vec![],
    );
    assert_eq!(out, el("ul", vec![], vec![el("li", vec![("role", "item")], vec![])]));
}

#[test]
fn within_wrap_node_and_insert_after() {
    let view = el("ul", vec![], vec![el("li", vec![], vec![])]);
    let sel = NodeSelector::Tag("li".to_string());
    let wrapper = el(
        "section",
        vec![],
        vec![PluginView::HostComponent(HostComponentRef {
            name: "__target__".to_string(),
            props: serde_json::Value::Null,
            children: vec![],
        })],
    );
    let out = traverse_and_apply(&view, &sel, &TransformOp::WrapNode, &vec![Some(wrapper)]);
    assert_eq!(out, el("ul", vec![], vec![el("section", vec![], vec![el("li", vec![], vec![])])]));
    let out = traverse_and_apply(&view, &sel, &TransformOp::InsertAfter, &vec![Some(text("z"))]);
    assert_eq!(out, el("ul", vec![], vec![el("li", vec![], vec![]), text("z")]));
}

#[test]
fn within_failed_calls_leave_view_unchanged() {
    let view = sample();
    let sel = NodeSelector::Recursive(Box::new(NodeSelector::Tag("div".to_string())));
    let out = traverse_and_apply(&view, &sel, &TransformOp::Replace, &vec![None, None, None]);
    assert_eq!(out, sample());
    let out = traverse_and_apply(&view, &sel, &TransformOp::Replace, &vec![]);
    assert_eq!(out, sample());
}

#[test]
fn within_input_carries_target_for_replace_and_wrap_node() {
    let ctx = || TransformContext {
        route_params: dioxus_extism::keymap::KeyMap::new(),
        component_props: None,
        slot_name: Some("s".to_string()),
        client: Default::default(),
    };
    let t = within_transform_input(&TransformOp::Replace, text("n"), ctx(), SessionCtx::default());
    assert_eq!(t.original, Some(text("n")));
    let t = within_transform_input(&TransformOp::WrapNode, text("n"), ctx(), SessionCtx::default());
    assert_eq!(t.original, Some(text("n")));
    let t = within_transform_input(&TransformOp::InsertBefore, text("n"), ctx(), SessionCtx::default());
    assert_eq!(t.original, None);
    assert_eq!(t.context.slot_name, Some("s".to_string()));
}
