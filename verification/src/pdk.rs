//! Helpers for plugin authors: a fluent builder of view trees, constructors of the
//! common elements and placeholders, and the context of a plugin call.

use vstd::prelude::*;

use crate::dispatch::concat;
use crate::protocol::{
    ClientCapabilities, HandlerId, HookCall, HookResult, PluginEvent, PluginManifest, SessionCtx, TransformInput,
    TransformOutput, ViewUpdate,
};
use crate::viewtree::{
    attrs_view, handler_node, handlers_view, lemma_view_nodes_push, opt_string_view, view_node,
    view_nodes, AttrNode, AttrValue, BoundEventHandler, DomEvent, ElementNode, HandlerNode,
    HostComponentRef, HostNode, PluginView, ViewElement, ViewNode,
};

verus! {

/// The model of an element.
pub open spec fn element_node(el: ViewElement) -> ElementNode {
    ElementNode {
        tag: el.tag@,
        name: opt_string_view(el.name),
        key: opt_string_view(el.key),
        attrs: attrs_view(el.attrs@),
        handlers: handlers_view(el.handlers@),
        children: view_nodes(el.children@),
    }
}

/// The model of a fresh element with tag `tag`.
pub open spec fn bare_element(tag: Seq<char>) -> ElementNode {
    ElementNode {
        tag,
        name: None,
        key: None,
        attrs: Seq::empty(),
        handlers: Seq::empty(),
        children: Seq::empty(),
    }
}

/// `e` with attribute `(name, value)` appended.
pub open spec fn with_attr_node(e: ElementNode, name: Seq<char>, value: AttrNode) -> ElementNode {
    ElementNode { attrs: e.attrs.push((name, value)), ..e }
}

/// `e` with handler `h` appended.
pub open spec fn with_handler(e: ElementNode, h: HandlerNode) -> ElementNode {
    ElementNode { handlers: e.handlers.push(h), ..e }
}

/// Fluent builder of an element view.
pub struct ViewBuilder(ViewElement);

/// `children` appended to `v`, in order.
fn append_views(v: &mut Vec<PluginView>, children: Vec<PluginView>)
    ensures
        view_nodes(final(v)@) == view_nodes(old(v)@) + view_nodes(children@),
{
    let ghost start = v@;
    let ghost orig = children@;
    let mut rest = children;
    let n = rest.len();
    let mut k: usize = 0;
    proof {
        assert(orig.take(0) =~= Seq::<PluginView>::empty());
        crate::viewtree::lemma_view_nodes(Seq::<PluginView>::empty());
        assert(view_nodes(start) + view_nodes(orig.take(0)) =~= view_nodes(start));
        assert(orig.skip(0) =~= orig);
    }
    while rest.len() > 0
        invariant
            k <= orig.len(),
            orig.len() == n,
            rest@ == orig.skip(k as int),
            view_nodes(v@) == view_nodes(start) + view_nodes(orig.take(k as int)),
        decreases rest@.len(),
    {
        let c = rest.remove(0);
        proof {
            assert(c == orig[k as int]);
            assert(orig.take(k + 1) =~= orig.take(k as int).push(c));
            lemma_view_nodes_push(orig.take(k as int), c);
            lemma_view_nodes_push(v@, c);
            assert(rest@ =~= orig.skip(k + 1));
        }
        v.push(c);
        k = k + 1;
        proof {
            assert(view_nodes(v@) =~= view_nodes(start) + view_nodes(orig.take(k as int)));
        }
    }
    proof {
        assert(orig.take(k as int) =~= orig);
    }
}

impl ViewBuilder {
    /// The model of the element built so far.
    pub closed spec fn model(&self) -> ElementNode {
        element_node(self.0)
    }

    /// Start an element with tag `tag`.
    pub fn new(tag: &str) -> (b: Self)
        ensures
            b.model() == bare_element(tag@),
    {
        let b = ViewBuilder(
            ViewElement {
                tag: tag.to_owned(),
                name: None,
                key: None,
                attrs: Vec::new(),
                handlers: Vec::new(),
                children: Vec::new(),
            },
        );
        proof {
            crate::viewtree::lemma_view_nodes(Seq::<PluginView>::empty());
            assert(attrs_view(b.0.attrs@) =~= Seq::<(Seq<char>, AttrNode)>::empty());
            assert(handlers_view(b.0.handlers@) =~= Seq::<HandlerNode>::empty());
            assert(view_nodes(b.0.children@) =~= Seq::<ViewNode>::empty());
        }
        b
    }

    /// Add a string attribute.
    pub fn attr(self, name: &str, value: &str) -> (b: Self)
        ensures
            b.model() == with_attr_node(self.model(), name@, AttrNode::Str(value@)),
    {
        let mut s = self;
        let ghost before = s.0.attrs@;
        s.0.attrs.push((name.to_owned(), AttrValue::String(value.to_owned())));
        proof {
            assert(attrs_view(s.0.attrs@) =~= attrs_view(before).push((name@, AttrNode::Str(value@))));
        }
        s
    }

    /// Add a boolean attribute (`disabled`, `hidden`, ...).
    pub fn bool_attr(self, name: &str, value: bool) -> (b: Self)
        ensures
            b.model() == with_attr_node(self.model(), name@, AttrNode::Bool(value)),
    {
        let mut s = self;
        let ghost before = s.0.attrs@;
        s.0.attrs.push((name.to_owned(), AttrValue::Bool(value)));
        proof {
            assert(attrs_view(s.0.attrs@) =~= attrs_view(before).push((name@, AttrNode::Bool(value))));
        }
        s
    }

    /// Set the `class` attribute.
    pub fn class(self, value: &str) -> (b: Self)
        ensures
            b.model() == with_attr_node(self.model(), "class"@, AttrNode::Str(value@)),
    {
        self.attr("class", value)
    }

    /// Set the `id` attribute.
    pub fn id(self, value: &str) -> (b: Self)
        ensures
            b.model() == with_attr_node(self.model(), "id"@, AttrNode::Str(value@)),
    {
        self.attr("id", value)
    }

    /// Set the `style` attribute.
    pub fn style(self, value: &str) -> (b: Self)
        ensures
            b.model() == with_attr_node(self.model(), "style"@, AttrNode::Str(value@)),
    {
        self.attr("style", value)
    }

    /// Set the `href` attribute (links).
    pub fn href(self, value: &str) -> (b: Self)
        ensures
            b.model() == with_attr_node(self.model(), "href"@, AttrNode::Str(value@)),
    {
        self.attr("href", value)
    }

    /// Set the `src` attribute (images, scripts).
    pub fn src(self, value: &str) -> (b: Self)
        ensures
            b.model() == with_attr_node(self.model(), "src"@, AttrNode::Str(value@)),
    {
        self.attr("src", value)
    }

    /// Set the `alt` attribute (images).
    pub fn alt(self, value: &str) -> (b: Self)
        ensures
            b.model() == with_attr_node(self.model(), "alt"@, AttrNode::Str(value@)),
    {
        self.attr("alt", value)
    }

    /// Set the `type` attribute (inputs, buttons).
    pub fn ty(self, value: &str) -> (b: Self)
        ensures
            b.model() == with_attr_node(self.model(), "type"@, AttrNode::Str(value@)),
    {
        self.attr("type", value)
    }

    /// Set the `value` attribute (inputs).
    pub fn value(self, value: &str) -> (b: Self)
        ensures
            b.model() == with_attr_node(self.model(), "value"@, AttrNode::Str(value@)),
    {
        self.attr("value", value)
    }

    /// Set the `placeholder` attribute (inputs).
    pub fn placeholder(self, value: &str) -> (b: Self)
        ensures
            b.model() == with_attr_node(self.model(), "placeholder"@, AttrNode::Str(value@)),
    {
        self.attr("placeholder", value)
    }

    /// Set the `role` attribute.
    pub fn role(self, value: &str) -> (b: Self)
        ensures
            b.model() == with_attr_node(self.model(), "role"@, AttrNode::Str(value@)),
    {
        self.attr("role", value)
    }

    /// Set the `disabled` attribute.
    pub fn disabled(self, value: bool) -> (b: Self)
        ensures
            b.model() == with_attr_node(self.model(), "disabled"@, AttrNode::Bool(value)),
    {
        self.bool_attr("disabled", value)
    }

    /// Set the `hidden` attribute.
    pub fn hidden(self, value: bool) -> (b: Self)
        ensures
            b.model() == with_attr_node(self.model(), "hidden"@, AttrNode::Bool(value)),
    {
        self.bool_attr("hidden", value)
    }

    /// Set a `data-*` attribute: `data-` is prepended to `name`.
    pub fn data(self, name: &str, value: &str) -> (b: Self)
        ensures
            b.model() == with_attr_node(self.model(), "data-"@ + name@, AttrNode::Str(value@)),
    {
        let full = concat("data-", name);
        self.attr(full.as_str(), value)
    }

    /// Mark the element as a `data-plugin-slot` target, addressable by data-plugin-slot
    /// tree transforms.
    pub fn plugin_slot(self, slot_name: &str) -> (b: Self)
        ensures
            b.model() == with_attr_node(self.model(), "data-plugin-slot"@, AttrNode::Str(slot_name@)),
    {
        self.attr("data-plugin-slot", slot_name)
    }

    /// Set the stable selector name.
    pub fn name(self, name: &str) -> (b: Self)
        ensures
            b.model() == (ElementNode { name: Some(name@), ..self.model() }),
    {
        let mut s = self;
        s.0.name = Some(name.to_owned());
        s
    }

    /// Set the stable diff key.
    pub fn key(self, key: &str) -> (b: Self)
        ensures
            b.model() == (ElementNode { key: Some(key@), ..self.model() }),
    {
        let mut s = self;
        s.0.key = Some(key.to_owned());
        s
    }

    /// Append a child view.
    pub fn child(self, child: PluginView) -> (b: Self)
        ensures
            b.model() == (ElementNode { children: self.model().children.push(view_node(child)), ..self.model() }),
    {
        let mut s = self;
        let ghost before = s.0.children@;
        s.0.children.push(child);
        proof {
            lemma_view_nodes_push(before, child);
        }
        s
    }

    /// Append child views.
    pub fn children(self, children: Vec<PluginView>) -> (b: Self)
        ensures
            b.model() == (ElementNode { children: self.model().children + view_nodes(children@), ..self.model() }),
    {
        let mut s = self;
        append_views(&mut s.0.children, children);
        s
    }

    /// Attach an event handler.
    pub fn on(self, handler: BoundEventHandler) -> (b: Self)
        ensures
            b.model() == with_handler(self.model(), handler_node(handler)),
    {
        let mut s = self;
        let ghost before = s.0.handlers@;
        s.0.handlers.push(handler);
        proof {
            assert(handlers_view(s.0.handlers@) =~= handlers_view(before).push(handler_node(handler)));
        }
        s
    }

    /// Attach a `click` handler.
    pub fn on_click(self, handler_id: HandlerId) -> (b: Self)
        ensures
            b.model() == with_handler(
                self.model(),
                HandlerNode { event: DomEvent::Click, handler_id: handler_id.0@, debounce_ms: None },
            ),
    {
        self.on(BoundEventHandler { event: DomEvent::Click, handler_id, debounce_ms: None })
    }

    /// Attach a `input` handler.
    pub fn on_input(self, handler_id: HandlerId) -> (b: Self)
        ensures
            b.model() == with_handler(
                self.model(),
                HandlerNode { event: DomEvent::Input, handler_id: handler_id.0@, debounce_ms: None },
            ),
    {
        self.on(BoundEventHandler { event: DomEvent::Input, handler_id, debounce_ms: None })
    }

    /// Attach a `change` handler.
    pub fn on_change(self, handler_id: HandlerId) -> (b: Self)
        ensures
            b.model() == with_handler(
                self.model(),
                HandlerNode { event: DomEvent::Change, handler_id: handler_id.0@, debounce_ms: None },
            ),
    {
        self.on(BoundEventHandler { event: DomEvent::Change, handler_id, debounce_ms: None })
    }

    /// Attach a `submit` handler.
    pub fn on_submit(self, handler_id: HandlerId) -> (b: Self)
        ensures
            b.model() == with_handler(
                self.model(),
                HandlerNode { event: DomEvent::Submit, handler_id: handler_id.0@, debounce_ms: None },
            ),
    {
        self.on(BoundEventHandler { event: DomEvent::Submit, handler_id, debounce_ms: None })
    }

    /// Attach a `focus` handler.
    pub fn on_focus(self, handler_id: HandlerId) -> (b: Self)
        ensures
            b.model() == with_handler(
                self.model(),
                HandlerNode { event: DomEvent::Focus, handler_id: handler_id.0@, debounce_ms: None },
            ),
    {
        self.on(BoundEventHandler { event: DomEvent::Focus, handler_id, debounce_ms: None })
    }

    /// Attach a `blur` handler.
    pub fn on_blur(self, handler_id: HandlerId) -> (b: Self)
        ensures
            b.model() == with_handler(
                self.model(),
                HandlerNode { event: DomEvent::Blur, handler_id: handler_id.0@, debounce_ms: None },
            ),
    {
        self.on(BoundEventHandler { event: DomEvent::Blur, handler_id, debounce_ms: None })
    }

    /// Attach a `keydown` handler.
    pub fn on_keydown(self, handler_id: HandlerId) -> (b: Self)
        ensures
            b.model() == with_handler(
                self.model(),
                HandlerNode { event: DomEvent::KeyDown, handler_id: handler_id.0@, debounce_ms: None },
            ),
    {
        self.on(BoundEventHandler { event: DomEvent::KeyDown, handler_id, debounce_ms: None })
    }

    /// Attach a `keyup` handler.
    pub fn on_keyup(self, handler_id: HandlerId) -> (b: Self)
        ensures
            b.model() == with_handler(
                self.model(),
                HandlerNode { event: DomEvent::KeyUp, handler_id: handler_id.0@, debounce_ms: None },
            ),
    {
        self.on(BoundEventHandler { event: DomEvent::KeyUp, handler_id, debounce_ms: None })
    }

    /// Set a debounce delay (ms) on the handler attached last; without a handler,
    /// nothing changes.
    pub fn debounce(self, ms: u32) -> (b: Self)
        ensures
            self.model().handlers.len() == 0 ==> b.model() == self.model(),
            self.model().handlers.len() > 0 ==> b.model() == (ElementNode {
                handlers: self.model().handlers.update(
                    self.model().handlers.len() - 1,
                    HandlerNode { debounce_ms: Some(ms), ..self.model().handlers.last() },
                ),
                ..self.model()
            }),
    {
        let mut s = self;
        if s.0.handlers.len() > 0 {
            let ghost before = s.0.handlers@;
            let mut h = s.0.handlers.pop().unwrap();
            h.debounce_ms = Some(ms);
            s.0.handlers.push(h);
            proof {
                assert(handlers_view(s.0.handlers@) =~= handlers_view(before).update(
                    before.len() - 1,
                    HandlerNode { debounce_ms: Some(ms), ..handlers_view(before).last() },
                ));
            }
        }
        s
    }

    /// The element view.
    pub fn build(self) -> (v: PluginView)
        ensures
            view_node(v) == ViewNode::Element(self.model()),
    {
        PluginView::Element(self.0)
    }
}

/// Start an element with tag `tag`.
pub fn element(tag: &str) -> (b: ViewBuilder)
    ensures
        b.model() == bare_element(tag@),
{
    ViewBuilder::new(tag)
}

/// Start a `<div>`.
pub fn div() -> (b: ViewBuilder)
    ensures
        b.model() == bare_element("div"@),
{
    ViewBuilder::new("div")
}

/// Start a `<span>`.
pub fn span() -> (b: ViewBuilder)
    ensures
        b.model() == bare_element("span"@),
{
    ViewBuilder::new("span")
}

/// Start a `<p>`.
pub fn p() -> (b: ViewBuilder)
    ensures
        b.model() == bare_element("p"@),
{
    ViewBuilder::new("p")
}

/// Start a `<h1>`.
pub fn h1() -> (b: ViewBuilder)
    ensures
        b.model() == bare_element("h1"@),
{
    ViewBuilder::new("h1")
}

/// Start a `<h2>`.
pub fn h2() -> (b: ViewBuilder)
    ensures
        b.model() == bare_element("h2"@),
{
    ViewBuilder::new("h2")
}

/// Start a `<h3>`.
pub fn h3() -> (b: ViewBuilder)
    ensures
        b.model() == bare_element("h3"@),
{
    ViewBuilder::new("h3")
}

/// Start a `<button>`.
pub fn button() -> (b: ViewBuilder)
    ensures
        b.model() == bare_element("button"@),
{
    ViewBuilder::new("button")
}

/// Start a `<input>`.
pub fn input() -> (b: ViewBuilder)
    ensures
        b.model() == bare_element("input"@),
{
    ViewBuilder::new("input")
}

/// Start a `<label>`.
pub fn label() -> (b: ViewBuilder)
    ensures
        b.model() == bare_element("label"@),
{
    ViewBuilder::new("label")
}

/// Start a `<a>`.
pub fn a() -> (b: ViewBuilder)
    ensures
        b.model() == bare_element("a"@),
{
    ViewBuilder::new("a")
}

/// Start a `<img>`.
pub fn img() -> (b: ViewBuilder)
    ensures
        b.model() == bare_element("img"@),
{
    ViewBuilder::new("img")
}

/// Start a `<ul>`.
pub fn ul() -> (b: ViewBuilder)
    ensures
        b.model() == bare_element("ul"@),
{
    ViewBuilder::new("ul")
}

/// Start a `<ol>`.
pub fn ol() -> (b: ViewBuilder)
    ensures
        b.model() == bare_element("ol"@),
{
    ViewBuilder::new("ol")
}

/// Start a `<li>`.
pub fn li() -> (b: ViewBuilder)
    ensures
        b.model() == bare_element("li"@),
{
    ViewBuilder::new("li")
}

/// Start a `<form>`.
pub fn form() -> (b: ViewBuilder)
    ensures
        b.model() == bare_element("form"@),
{
    ViewBuilder::new("form")
}

/// Start a `<h4>`.
pub fn h4() -> (b: ViewBuilder)
    ensures
        b.model() == bare_element("h4"@),
{
    ViewBuilder::new("h4")
}

/// Start a `<h5>`.
pub fn h5() -> (b: ViewBuilder)
    ensures
        b.model() == bare_element("h5"@),
{
    ViewBuilder::new("h5")
}

/// Start a `<h6>`.
pub fn h6() -> (b: ViewBuilder)
    ensures
        b.model() == bare_element("h6"@),
{
    ViewBuilder::new("h6")
}

/// Start a `<section>`.
pub fn section() -> (b: ViewBuilder)
    ensures
        b.model() == bare_element("section"@),
{
    ViewBuilder::new("section")
}

/// Start a `<header>`.
pub fn header() -> (b: ViewBuilder)
    ensures
        b.model() == bare_element("header"@),
{
    ViewBuilder::new("header")
}

/// Start a `<footer>`.
pub fn footer() -> (b: ViewBuilder)
    ensures
        b.model() == bare_element("footer"@),
{
    ViewBuilder::new("footer")
}

/// Start a `<nav>`.
pub fn nav() -> (b: ViewBuilder)
    ensures
        b.model() == bare_element("nav"@),
{
    ViewBuilder::new("nav")
}

/// Start a `<article>`.
pub fn article() -> (b: ViewBuilder)
    ensures
        b.model() == bare_element("article"@),
{
    ViewBuilder::new("article")
}

/// Start a `<aside>`.
pub fn aside() -> (b: ViewBuilder)
    ensures
        b.model() == bare_element("aside"@),
{
    ViewBuilder::new("aside")
}

/// Start a `<table>`.
pub fn table() -> (b: ViewBuilder)
    ensures
        b.model() == bare_element("table"@),
{
    ViewBuilder::new("table")
}

/// Start a `<thead>`.
pub fn thead() -> (b: ViewBuilder)
    ensures
        b.model() == bare_element("thead"@),
{
    ViewBuilder::new("thead")
}

/// Start a `<tbody>`.
pub fn tbody() -> (b: ViewBuilder)
    ensures
        b.model() == bare_element("tbody"@),
{
    ViewBuilder::new("tbody")
}

/// Start a `<tr>`.
pub fn tr() -> (b: ViewBuilder)
    ensures
        b.model() == bare_element("tr"@),
{
    ViewBuilder::new("tr")
}

/// Start a `<td>`.
pub fn td() -> (b: ViewBuilder)
    ensures
        b.model() == bare_element("td"@),
{
    ViewBuilder::new("td")
}

/// Start a `<th>`.
pub fn th() -> (b: ViewBuilder)
    ensures
        b.model() == bare_element("th"@),
{
    ViewBuilder::new("th")
}

/// Start a `<textarea>`.
pub fn textarea() -> (b: ViewBuilder)
    ensures
        b.model() == bare_element("textarea"@),
{
    ViewBuilder::new("textarea")
}

/// Start a `<select>`.
pub fn select() -> (b: ViewBuilder)
    ensures
        b.model() == bare_element("select"@),
{
    ViewBuilder::new("select")
}

/// Start a `<option>`.
pub fn option() -> (b: ViewBuilder)
    ensures
        b.model() == bare_element("option"@),
{
    ViewBuilder::new("option")
}

/// A text node.
pub fn text(content: &str) -> (v: PluginView)
    ensures
        view_node(v) == ViewNode::Text(content@),
{
    PluginView::Text(content.to_owned())
}

/// A fragment of `children`.
pub fn fragment(children: Vec<PluginView>) -> (v: PluginView)
    ensures
        view_node(v) == ViewNode::Fragment(view_nodes(children@)),
{
    PluginView::Fragment(children)
}

/// An `Incompatible` view with `reason` and no fallback, for a plugin that cannot
/// render for the current client.
pub fn incompatible(reason: &str) -> (v: PluginView)
    ensures
        view_node(v) == (ViewNode::Incompatible { reason: reason@, fallback: None }),
{
    PluginView::Incompatible { reason: reason.to_owned(), fallback: None }
}

/// An `Incompatible` view with `reason` and a simpler `fallback`.
pub fn incompatible_with_fallback(reason: &str, fallback: PluginView) -> (v: PluginView)
    ensures
        view_node(v) == (ViewNode::Incompatible { reason: reason@, fallback: Some(Box::new(view_node(fallback))) }),
{
    PluginView::Incompatible { reason: reason.to_owned(), fallback: Some(Box::new(fallback)) }
}

/// The placeholder that a wrap transform puts where the original content goes: the
/// host component `__content__`.
pub fn original_content() -> (v: PluginView)
    ensures
        view_node(v) matches ViewNode::HostComponent(h) && h.name == "__content__"@ && h.children.len() == 0,
{
    let v = PluginView::HostComponent(
        HostComponentRef { name: "__content__".to_owned(), props: crate::json::json_null(), children: Vec::new() },
    );
    proof {
        crate::viewtree::lemma_view_nodes(Seq::<PluginView>::empty());
    }
    v
}

/// The placeholder that a wrap-node transform puts where the original node goes:
/// the host component `__target__`.
pub fn original_target() -> (v: PluginView)
    ensures
        view_node(v) matches ViewNode::HostComponent(h) && h.name == "__target__"@ && h.children.len() == 0,
{
    let v = PluginView::HostComponent(
        HostComponentRef { name: "__target__".to_owned(), props: crate::json::json_null(), children: Vec::new() },
    );
    proof {
        crate::viewtree::lemma_view_nodes(Seq::<PluginView>::empty());
    }
    v
}

/// Fluent builder of a reference to a host component.
pub struct HostComponentBuilder(HostComponentRef);

/// Start a reference to the host component `name`, with null props.
pub fn host(name: &str) -> (b: HostComponentBuilder)
    ensures
        b.model().name == name@,
        b.model().children.len() == 0,
{
    let b = HostComponentBuilder(
        HostComponentRef { name: name.to_owned(), props: crate::json::json_null(), children: Vec::new() },
    );
    proof {
        crate::viewtree::lemma_view_nodes(Seq::<PluginView>::empty());
    }
    b
}

impl HostComponentBuilder {
    /// The model of the reference built so far.
    pub closed spec fn model(&self) -> HostNode {
        HostNode { name: self.0.name@, props: self.0.props, children: view_nodes(self.0.children@) }
    }

    /// Set the props forwarded to the component.
    pub fn props(self, props: serde_json::Value) -> (b: Self)
        ensures
            b.model() == (HostNode { props, ..self.model() }),
    {
        let mut s = self;
        s.0.props = props;
        s
    }

    /// Append a child view.
    pub fn child(self, v: PluginView) -> (b: Self)
        ensures
            b.model() == (HostNode { children: self.model().children.push(view_node(v)), ..self.model() }),
    {
        let mut s = self;
        let ghost before = s.0.children@;
        s.0.children.push(v);
        proof {
            lemma_view_nodes_push(before, v);
        }
        s
    }

    /// Append child views.
    pub fn children(self, children: Vec<PluginView>) -> (b: Self)
        ensures
            b.model() == (HostNode { children: self.model().children + view_nodes(children@), ..self.model() }),
    {
        let mut s = self;
        append_views(&mut s.0.children, children);
        s
    }

    /// The host component view.
    pub fn build(self) -> (v: PluginView)
        ensures
            view_node(v) == ViewNode::HostComponent(self.model()),
    {
        PluginView::HostComponent(self.0)
    }
}

// ── Plugin context ──────────────────────────────────────────────────────────

/// Reads and writes state through host functions.
pub struct StateAccessor;

/// Emits events on the host's event bus.
pub struct EventEmitter;

/// Calls named host invocations.
pub struct InvocationAccessor;

/// What a plugin call can reach: state, events, invocations, and the session and
/// client it runs for.
pub struct PluginCtx {
    pub state: StateAccessor,
    pub emit: EventEmitter,
    pub invoke: InvocationAccessor,
    pub session: SessionCtx,
    pub client: ClientCapabilities,
}

impl PluginCtx {
    /// The context of a call for `session`: its client is the session's.
    pub fn from_session(session: SessionCtx) -> (c: Self)
        ensures
            c.session == session,
            c.client@ == session.client@,
    {
        let client = session.client.copy();
        PluginCtx { state: StateAccessor, emit: EventEmitter, invoke: InvocationAccessor, session, client }
    }
}

} // verus!

verus! {

// ── Plugin-side traits ──────────────────────────────────────────────────────

/// Errors of plugin code.
#[derive(Debug, Clone)]
#[non_exhaustive]
pub enum PdkError {
    /// A host function failed; its message.
    HostFn(String),
    /// A value could not be encoded or decoded; the decoder's message.
    Json(String),
    Custom(String),
}

/// Implemented by every plugin to declare its manifest.
pub trait DioxusPlugin {
    fn manifest() -> PluginManifest;
}

/// Implemented by a plugin that contributes content to a named slot.
pub trait SlotProvider: DioxusPlugin {
    const SLOT_NAME: &'static str;

    fn render(ctx: &PluginCtx) -> Result<PluginView, PdkError>;
}

/// Implemented by a plugin that intercepts a named hook.
pub trait HookHandler: DioxusPlugin {
    const HOOK_NAME: &'static str;

    fn handle(call: HookCall, ctx: &PluginCtx) -> Result<HookResult, PdkError>;
}

/// Implemented by a plugin that subscribes to events.
pub trait EventSubscriber: DioxusPlugin {
    fn on_event(event: PluginEvent, ctx: &PluginCtx) -> Result<(), PdkError>;
}

/// Implemented by a plugin that handles interactions with its own UI.
pub trait InteractionHandler: DioxusPlugin {
    fn on_interaction(handler_id: HandlerId, event_data: serde_json::Value, ctx: &PluginCtx) -> Result<
        ViewUpdate,
        PdkError,
    >;
}

/// Called once when the plugin is loaded.
pub trait OnLoad: DioxusPlugin {
    fn on_load(ctx: &PluginCtx) -> Result<(), PdkError>;
}

/// Called before the plugin is unloaded.
pub trait OnUnload: DioxusPlugin {
    fn on_unload() -> Result<(), PdkError>;
}

/// Implemented by a plugin that provides route, slot, component or tree transforms.
pub trait TransformProvider: DioxusPlugin {
    fn transform(input: TransformInput, ctx: &PluginCtx) -> Result<TransformOutput, PdkError>;
}

} // verus!
