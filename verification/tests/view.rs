use dioxus_extism::pdk::{
    a, article, aside, button, div, footer, form, fragment, h1, h2, h3, h4, h5, h6, header, host, img, input,
    label, li, nav, ol, option, original_content, original_target, p, section, select, table, tbody, td, text,
    textarea, th, thead, tr, ul, ViewBuilder,
};
use dioxus_extism::protocol::HandlerId;
use dioxus_extism::viewtree::{AttrValue, PluginView};

#[test]
fn builder_basic() {
    let view = div().class("foo").id("bar").build();
    let PluginView::Element(el) = view else { panic!("expected Element") };
    assert_eq!(el.tag, "div");
    assert!(el.attrs.iter().any(|(k, _)| k == "class"));
    assert!(el.attrs.iter().any(|(k, _)| k == "id"));
}

#[test]
fn builder_event_handlers() {
    let hid = HandlerId("h1".to_string());
    let view = button().on_click(hid.clone()).debounce(200).build();
    let PluginView::Element(el) = view else { panic!("expected Element") };
    assert_eq!(el.handlers.len(), 1);
    assert_eq!(el.handlers[0].debounce_ms, Some(200));
}

#[test]
fn builder_plugin_slot() {
    let view = div().plugin_slot("my-slot").build();
    let PluginView::Element(el) = view else { panic!("expected Element") };
    assert!(el.attrs.iter().any(|(k, v)| k == "data-plugin-slot" && matches!(v, AttrValue::String(s) if s == "my-slot")));
}

#[test]
fn fragment_helper() {
    let f = fragment(vec![text("a"), text("b")]);
    let PluginView::Fragment(items) = f else { panic!("expected Fragment") };
    assert_eq!(items.len(), 2);
}

#[test]
fn host_builder() {
    let mut props = serde_json::Map::new();
    props.insert("id".to_string(), serde_json::Value::from(1));
    let view = host("MyCard").props(serde_json::Value::Object(props)).build();
    let PluginView::HostComponent(r) = view else { panic!("expected HostComponent") };
    assert_eq!(r.name, "MyCard");
}

#[test]
fn original_content_and_target() {
    let PluginView::HostComponent(r) = original_content() else { panic!() };
    assert_eq!(r.name, "__content__");
    let PluginView::HostComponent(r) = original_target() else { panic!() };
    assert_eq!(r.name, "__target__");
}

#[test]
fn all_element_constructors_have_correct_tags() {
    let pairs: &[(&str, fn() -> ViewBuilder)] = &[
        ("p", p),
        ("h1", h1), ("h2", h2), ("h3", h3),
        ("h4", h4), ("h5", h5), ("h6", h6),
        ("button", button), ("input", input), ("label", label),
        ("a", a), ("img", img),
        ("ul", ul), ("ol", ol), ("li", li),
        ("form", form),
        ("section", section), ("header", header), ("footer", footer),
        ("nav", nav), ("article", article), ("aside", aside),
        ("table", table), ("thead", thead), ("tbody", tbody),
        ("tr", tr), ("td", td), ("th", th),
        ("textarea", textarea), ("select", select), ("option", option),
    ];
    for (tag, ctor) in pairs {
        let PluginView::Element(el) = ctor().build() else {
            panic!("expected Element for {tag}");
        };
        assert_eq!(&el.tag, tag);
    }
}

#[test]
fn debounce_no_handler_is_noop() {
    let view = div().debounce(100).build();
    let PluginView::Element(el) = view else { panic!() };
    assert!(el.handlers.is_empty());
}

#[test]
fn data_attribute_is_prefixed() {
    let PluginView::Element(el) = div().data("role", "nav").build() else { panic!() };
    assert_eq!(el.attrs, vec![("data-role".to_string(), AttrValue::String("nav".to_string()))]);
}

#[test]
fn debounce_applies_to_last_handler_only() {
    let PluginView::Element(el) = input()
        .on_focus(HandlerId("f".to_string()))
        .on_input(HandlerId("i".to_string()))
        .debounce(50)
        .build()
    else {
        panic!()
    };
    assert_eq!(el.handlers[0].debounce_ms, None);
    assert_eq!(el.handlers[1].debounce_ms, Some(50));
}

#[test]
fn children_keep_order() {
    let PluginView::Element(el) = div().child(text("a")).children(vec![text("b"), text("c")]).build() else { panic!() };
    assert_eq!(el.children, vec![text("a"), text("b"), text("c")]);
}
