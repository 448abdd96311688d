//! The serialisable UI tree that plugins return, and its mathematical model.

use vstd::prelude::*;

use crate::protocol::HandlerId;

verus! {

broadcast use vstd::std_specs::vec::axiom_vec_decreases_to_view;

/// A typed attribute value. A number is carried as the bit pattern of an IEEE-754
/// double (`f64::to_bits`).
#[derive(Debug, Clone, PartialEq)]
#[non_exhaustive]
pub enum AttrValue {
    String(String),
    Bool(bool),
    Number(u64),
}

/// DOM events a plugin can listen for.
#[derive(Debug, Clone, Copy, PartialEq, Eq, Structural)]
#[non_exhaustive]
pub enum DomEvent {
    Click,
    Input,
    Change,
    Submit,
    Focus,
    Blur,
    KeyDown,
    KeyUp,
}

/// An event handler bound to a DOM event on an element.
#[derive(Debug, Clone, PartialEq)]
pub struct BoundEventHandler {
    pub event: DomEvent,
    pub handler_id: HandlerId,
    pub debounce_ms: Option<u32>,
}

/// A reference to a named host component with forwarded props and children.
#[derive(Debug, Clone, PartialEq)]
pub struct HostComponentRef {
    pub name: String,
    pub props: serde_json::Value,
    pub children: Vec<PluginView>,
}

/// An element node.
#[derive(Debug, Clone, PartialEq)]
pub struct ViewElement {
    pub tag: String,
    /// Stable name for selector targeting.
    pub name: Option<String>,
    /// Stable key for keyed diffing.
    pub key: Option<String>,
    pub attrs: Vec<(String, AttrValue)>,
    pub handlers: Vec<BoundEventHandler>,
    pub children: Vec<PluginView>,
}

/// A virtual UI tree returned by plugin exports.
#[derive(Debug, PartialEq)]
#[non_exhaustive]
pub enum PluginView {
    Element(ViewElement),
    Text(String),
    /// A named host component with forwarded props.
    HostComponent(HostComponentRef),
    Fragment(Vec<PluginView>),
    Empty,
    /// Served when the plugin's requirements exceed the client's capabilities.
    Incompatible { reason: String, fallback: Option<Box<PluginView>> },
}

impl Clone for PluginView {
    fn clone(&self) -> (r: Self)
        ensures
            r@ == self@,
    {
        copy_view(self)
    }
}

impl Default for PluginView {
    fn default() -> (r: Self)
        ensures
            r is Empty,
    {
        PluginView::Empty
    }
}

// ── Model ───────────────────────────────────────────────────────────────────

/// Model of an attribute value.
pub ghost enum AttrNode {
    Str(Seq<char>),
    Bool(bool),
    Number(u64),
}

/// Model of an event handler binding.
pub ghost struct HandlerNode {
    pub event: DomEvent,
    pub handler_id: Seq<char>,
    pub debounce_ms: Option<u32>,
}

/// Model of an element.
pub ghost struct ElementNode {
    pub tag: Seq<char>,
    pub name: Option<Seq<char>>,
    pub key: Option<Seq<char>>,
    pub attrs: Seq<(Seq<char>, AttrNode)>,
    pub handlers: Seq<HandlerNode>,
    pub children: Seq<ViewNode>,
}

/// Model of a host component reference.
pub ghost struct HostNode {
    pub name: Seq<char>,
    pub props: serde_json::Value,
    pub children: Seq<ViewNode>,
}

/// Model of a view tree: strings as character sequences, lists as sequences.
pub ghost enum ViewNode {
    Element(ElementNode),
    Text(Seq<char>),
    HostComponent(HostNode),
    Fragment(Seq<ViewNode>),
    Empty,
    Incompatible { reason: Seq<char>, fallback: Option<Box<ViewNode>> },
}

pub open spec fn opt_string_view(o: Option<String>) -> Option<Seq<char>> {
    match o {
        Some(s) => Some(s@),
        None => None,
    }
}

pub open spec fn attr_node(a: AttrValue) -> AttrNode {
    match a {
        AttrValue::String(s) => AttrNode::Str(s@),
        AttrValue::Bool(b) => AttrNode::Bool(b),
        AttrValue::Number(n) => AttrNode::Number(n),
    }
}

pub open spec fn attrs_view(s: Seq<(String, AttrValue)>) -> Seq<(Seq<char>, AttrNode)> {
    s.map_values(|p: (String, AttrValue)| (p.0@, attr_node(p.1)))
}

pub open spec fn handler_node(h: BoundEventHandler) -> HandlerNode {
    HandlerNode { event: h.event, handler_id: h.handler_id.0@, debounce_ms: h.debounce_ms }
}

pub open spec fn handlers_view(s: Seq<BoundEventHandler>) -> Seq<HandlerNode> {
    s.map_values(|h: BoundEventHandler| handler_node(h))
}

/// The model of a view tree.
pub open spec fn view_node(v: PluginView) -> ViewNode
    decreases v, 0nat,
{
    match v {
        PluginView::Element(el) => ViewNode::Element(
            ElementNode {
                tag: el.tag@,
                name: opt_string_view(el.name),
                key: opt_string_view(el.key),
                attrs: attrs_view(el.attrs@),
                handlers: handlers_view(el.handlers@),
                children: view_nodes(el.children@),
            },
        ),
        PluginView::Text(t) => ViewNode::Text(t@),
        PluginView::HostComponent(r) => ViewNode::HostComponent(
            HostNode { name: r.name@, props: r.props, children: view_nodes(r.children@) },
        ),
        PluginView::Fragment(c) => ViewNode::Fragment(view_nodes(c@)),
        PluginView::Empty => ViewNode::Empty,
        PluginView::Incompatible { reason, fallback } => ViewNode::Incompatible {
            reason: reason@,
            fallback: match fallback {
                Some(b) => Some(Box::new(view_node(*b))),
                None => None,
            },
        },
    }
}

/// The models of a list of view trees.
pub open spec fn view_nodes(s: Seq<PluginView>) -> Seq<ViewNode>
    decreases s, 1nat,
{
    if s.len() == 0 {
        seq![]
    } else {
        view_nodes(s.drop_last()).push(view_node(s.last()))
    }
}

impl View for PluginView {
    type V = ViewNode;

    open spec fn view(&self) -> ViewNode {
        view_node(*self)
    }
}

/// `view_nodes` is element-wise.
pub proof fn lemma_view_nodes(s: Seq<PluginView>)
    ensures
        view_nodes(s).len() == s.len(),
        forall|i: int| 0 <= i < s.len() ==> #[trigger] view_nodes(s)[i] == view_node(s[i]),
    decreases s.len(),
{
    if s.len() > 0 {
        lemma_view_nodes(s.drop_last());
        assert forall|i: int| 0 <= i < s.len() implies #[trigger] view_nodes(s)[i] == view_node(
            s[i],
        ) by {
            if i < s.len() - 1 {
                assert(s.drop_last()[i] == s[i]);
            }
        }
    }
}

/// Two lists whose elements have equal models have equal models.
pub proof fn lemma_view_nodes_ext(a: Seq<PluginView>, b: Seq<PluginView>)
    requires
        a.len() == b.len(),
        forall|i: int| 0 <= i < a.len() ==> view_node(#[trigger] a[i]) == view_node(b[i]),
    ensures
        view_nodes(a) == view_nodes(b),
{
    lemma_view_nodes(a);
    lemma_view_nodes(b);
    assert(view_nodes(a) =~= view_nodes(b));
}

/// Appending one tree appends its model.
pub proof fn lemma_view_nodes_push(s: Seq<PluginView>, v: PluginView)
    ensures
        view_nodes(s.push(v)) == view_nodes(s).push(view_node(v)),
{
    assert(s.push(v).drop_last() =~= s);
}

// ── Copies ──────────────────────────────────────────────────────────────────

/// A copy of a string-valued option.
pub fn copy_opt_string(o: &Option<String>) -> (r: Option<String>)
    ensures
        r == *o,
{
    match o {
        Some(s) => Some(s.clone()),
        None => None,
    }
}

/// A copy of an attribute value.
pub fn copy_attr(a: &AttrValue) -> (r: AttrValue)
    ensures
        r == *a,
{
    match a {
        AttrValue::String(s) => AttrValue::String(s.clone()),
        AttrValue::Bool(b) => AttrValue::Bool(*b),
        AttrValue::Number(n) => AttrValue::Number(*n),
    }
}

/// A copy of an attribute list.
pub fn copy_attrs(v: &Vec<(String, AttrValue)>) -> (r: Vec<(String, AttrValue)>)
    ensures
        r@ == v@,
{
    let mut r: Vec<(String, AttrValue)> = Vec::new();
    for i in 0..v.len()
        invariant
            r@ == v@.take(i as int),
    {
        r.push((v[i].0.clone(), copy_attr(&v[i].1)));
        assert(r@ =~= v@.take(i + 1));
    }
    assert(v@.take(v@.len() as int) =~= v@);
    r
}

/// A copy of a handler list.
pub fn copy_handlers(v: &Vec<BoundEventHandler>) -> (r: Vec<BoundEventHandler>)
    ensures
        r@ == v@,
{
    let mut r: Vec<BoundEventHandler> = Vec::new();
    for i in 0..v.len()
        invariant
            r@ == v@.take(i as int),
    {
        let h = &v[i];
        r.push(
            BoundEventHandler {
                event: h.event,
                handler_id: HandlerId(h.handler_id.0.clone()),
                debounce_ms: h.debounce_ms,
            },
        );
        assert(r@ =~= v@.take(i + 1));
    }
    assert(v@.take(v@.len() as int) =~= v@);
    r
}

/// A copy of a view tree with the same model.
pub fn copy_view(v: &PluginView) -> (r: PluginView)
    ensures
        r@ == v@,
    decreases v,
{
    match v {
        PluginView::Element(el) => {
            let children = copy_children(v, &el.children);
            PluginView::Element(
                ViewElement {
                    tag: el.tag.clone(),
                    name: copy_opt_string(&el.name),
                    key: copy_opt_string(&el.key),
                    attrs: copy_attrs(&el.attrs),
                    handlers: copy_handlers(&el.handlers),
                    children,
                },
            )
        },
        PluginView::Text(t) => PluginView::Text(t.clone()),
        PluginView::HostComponent(hr) => {
            let children = copy_children(v, &hr.children);
            PluginView::HostComponent(
                HostComponentRef { name: hr.name.clone(), props: hr.props.clone(), children },
            )
        },
        PluginView::Fragment(c) => PluginView::Fragment(copy_children(v, c)),
        PluginView::Empty => PluginView::Empty,
        PluginView::Incompatible { reason, fallback } => {
            let fb = match fallback {
                Some(b) => {
                    proof {
                        assert(decreases_to!(*v => (*v)->fallback));
                    }
                    Some(Box::new(copy_view(b)))
                },
                None => None,
            };
            PluginView::Incompatible { reason: reason.clone(), fallback: fb }
        },
    }
}

/// The direct children of a tree: those of an element, a host component or a fragment.
pub open spec fn is_child_list_of(parent: PluginView, c: Vec<PluginView>) -> bool {
    match parent {
        PluginView::Element(el) => el.children == c,
        PluginView::HostComponent(r) => r.children == c,
        PluginView::Fragment(f) => f == c,
        _ => false,
    }
}

/// A copy of the child list `c` of `parent`.
pub fn copy_children(parent: &PluginView, c: &Vec<PluginView>) -> (r: Vec<PluginView>)
    requires
        is_child_list_of(*parent, *c),
    ensures
        view_nodes(r@) == view_nodes(c@),
        r@.len() == c@.len(),
    decreases parent, 1nat,
{
    let mut r: Vec<PluginView> = Vec::new();
    for i in 0..c.len()
        invariant
            is_child_list_of(*parent, *c),
            r@.len() == i,
            forall|j: int| 0 <= j < i ==> view_node(#[trigger] r@[j]) == view_node(c@[j]),
    {
        proof {
            if parent is Element {
                assert(decreases_to!(*parent => (*parent)->Element_0));
                assert(decreases_to!((*parent)->Element_0 => (*parent)->Element_0.children));
            } else if parent is HostComponent {
                assert(decreases_to!(*parent => (*parent)->HostComponent_0));
                assert(decreases_to!((*parent)->HostComponent_0 => (*parent)->HostComponent_0.children));
            } else {
                assert(decreases_to!(*parent => (*parent)->Fragment_0));
            }
            assert(decreases_to!(*c => c@));
            assert(decreases_to!(c@ => c@[i as int]));
        }
        let x = copy_view(&c[i]);
        r.push(x);
    }
    proof {
        lemma_view_nodes_ext(r@, c@);
    }
    r
}

} // verus!
