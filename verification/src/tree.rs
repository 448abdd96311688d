//! Selecting and rewriting nodes of a view tree.

use vstd::prelude::*;

use crate::keymap::str_eq;
use crate::protocol::{HandlerId, NodeSelector};
use crate::text::{has_token, whitespace_tokens};
use crate::viewtree::{
    attr_node, attrs_view, copy_attrs, copy_handlers, copy_opt_string, copy_view, is_child_list_of,
    lemma_view_nodes, view_node, view_nodes, AttrNode, AttrValue, BoundEventHandler, DomEvent,
    ElementNode, PluginView, ViewElement, ViewNode,
};

verus! {

broadcast use vstd::std_specs::vec::axiom_vec_decreases_to_view;

// ── Matching ────────────────────────────────────────────────────────────────

/// Some attribute is `key` with string value `value`.
pub open spec fn has_string_attr(attrs: Seq<(Seq<char>, AttrNode)>, key: Seq<char>, value: Seq<char>) -> bool {
    exists|i: int| 0 <= i < attrs.len() && #[trigger] attrs[i] == (key, AttrNode::Str(value))
}

/// Some `class` attribute has a string value whose class list holds `cls`.
pub open spec fn has_class_attr(attrs: Seq<(Seq<char>, AttrNode)>, cls: Seq<char>) -> bool {
    exists|i: int|
        0 <= i < attrs.len() && #[trigger] attrs[i].0 == "class"@ && (attrs[i].1 matches AttrNode::Str(
            s,
        ) && whitespace_tokens(s).contains(cls))
}

/// `v` matches `sel` on its own, without looking at its children or its position.
/// `Recursive` delegates to its inner selector; `First`, `Last` and `Index` need the
/// parent and never match here.
pub open spec fn node_matches_spec(v: ViewNode, sel: NodeSelector) -> bool
    decreases sel,
{
    match sel {
        NodeSelector::Tag(t) => v matches ViewNode::Element(el) && el.tag == t@,
        NodeSelector::HasClass(c) => v matches ViewNode::Element(el) && has_class_attr(el.attrs, c@),
        NodeSelector::Name(n) => v matches ViewNode::Element(el) && el.name == Some(n@),
        NodeSelector::DataAttr(k, val) => v matches ViewNode::Element(el) && has_string_attr(
            el.attrs,
            k@,
            val@,
        ),
        NodeSelector::HostComponent(n) => v matches ViewNode::HostComponent(r) && r.name == n@,
        NodeSelector::And(a, b) => node_matches_spec(v, *a) && node_matches_spec(v, *b),
        NodeSelector::Or(a, b) => node_matches_spec(v, *a) || node_matches_spec(v, *b),
        NodeSelector::Recursive(inner) => node_matches_spec(v, *inner),
        _ => false,
    }
}

/// Whether some `class` attribute of `attrs` lists `cls`.
fn attrs_have_class(attrs: &Vec<(String, AttrValue)>, cls: &String) -> (b: bool)
    ensures
        b == has_class_attr(attrs_view(attrs@), cls@),
{
    let ghost av = attrs_view(attrs@);
    for i in 0..attrs.len()
        invariant
            av == attrs_view(attrs@),
            forall|j: int|
                0 <= j < i ==> !(#[trigger] av[j].0 == "class"@ && (av[j].1 matches AttrNode::Str(
                    s,
                ) && whitespace_tokens(s).contains(cls@))),
    {
        if str_eq(attrs[i].0.as_str(), "class") {
            if let AttrValue::String(s) = &attrs[i].1 {
                if has_token(s.as_str(), cls.as_str()) {
                    assert(av[i as int].0 == "class"@);
                    return true;
                }
            }
        }
    }
    false
}

/// Whether some attribute of `attrs` is `key` with string value `value`.
fn attrs_have_string(attrs: &Vec<(String, AttrValue)>, key: &String, value: &String) -> (b: bool)
    ensures
        b == has_string_attr(attrs_view(attrs@), key@, value@),
{
    let ghost av = attrs_view(attrs@);
    for i in 0..attrs.len()
        invariant
            av == attrs_view(attrs@),
            forall|j: int| 0 <= j < i ==> #[trigger] av[j] != (key@, AttrNode::Str(value@)),
    {
        if attrs[i].0 == *key {
            if let AttrValue::String(s) = &attrs[i].1 {
                if *s == *value {
                    assert(av[i as int] == (key@, AttrNode::Str(value@)));
                    return true;
                }
            }
        }
    }
    false
}

/// Whether `view` matches `selector` (see [`node_matches_spec`]).
pub fn node_matches(view: &PluginView, selector: &NodeSelector) -> (b: bool)
    ensures
        b == node_matches_spec(view@, *selector),
    decreases selector,
{
    match selector {
        NodeSelector::Tag(t) => match view {
            PluginView::Element(el) => el.tag == *t,
            _ => false,
        },
        NodeSelector::HasClass(c) => match view {
            PluginView::Element(el) => attrs_have_class(&el.attrs, c),
            _ => false,
        },
        NodeSelector::Name(n) => match view {
            PluginView::Element(el) => match &el.name {
                Some(x) => *x == *n,
                None => false,
            },
            _ => false,
        },
        NodeSelector::DataAttr(k, v) => match view {
            PluginView::Element(el) => attrs_have_string(&el.attrs, k, v),
            _ => false,
        },
        NodeSelector::HostComponent(n) => match view {
            PluginView::HostComponent(r) => r.name == *n,
            _ => false,
        },
        NodeSelector::And(a, b) => node_matches(view, a) && node_matches(view, b),
        NodeSelector::Or(a, b) => node_matches(view, a) || node_matches(view, b),
        NodeSelector::Recursive(inner) => node_matches(view, inner),
        _ => false,
    }
}

/// Whether `selector` applies at any depth.
pub fn is_recursive_selector(selector: &NodeSelector) -> (b: bool)
    ensures
        b == (*selector is Recursive),
{
    match selector {
        NodeSelector::Recursive(_) => true,
        _ => false,
    }
}

// ── Finding ─────────────────────────────────────────────────────────────────

/// The children a selection looks at: those of an element or a fragment.
pub open spec fn children_of(v: ViewNode) -> Seq<ViewNode> {
    match v {
        ViewNode::Element(el) => el.children,
        ViewNode::Fragment(c) => c,
        _ => seq![],
    }
}

/// The members of `s` that match `sel`, in order.
pub open spec fn matching(s: Seq<ViewNode>, sel: NodeSelector) -> Seq<ViewNode>
    decreases s.len(),
{
    if s.len() == 0 {
        seq![]
    } else if node_matches_spec(s.last(), sel) {
        matching(s.drop_last(), sel).push(s.last())
    } else {
        matching(s.drop_last(), sel)
    }
}

/// The direct children of `v` that `sel` selects: by position for `First`, `Last` and
/// `Index`, by [`node_matches_spec`] otherwise.
pub open spec fn shallow_matches(v: ViewNode, sel: NodeSelector) -> Seq<ViewNode> {
    let c = children_of(v);
    match sel {
        NodeSelector::First => if c.len() > 0 { seq![c[0]] } else { seq![] },
        NodeSelector::Last => if c.len() > 0 { seq![c.last()] } else { seq![] },
        NodeSelector::Index(i) => if i < c.len() { seq![c[i as int]] } else { seq![] },
        _ => matching(c, sel),
    }
}

/// The models of the trees a list of references points to.
pub open spec fn refs_view(s: Seq<&PluginView>) -> Seq<ViewNode> {
    s.map_values(|r: &PluginView| view_node(*r))
}

/// The child list of an element or fragment, if `view` is one.
fn child_list(view: &PluginView) -> (r: Option<&Vec<PluginView>>)
    ensures
        match r {
            Some(c) => is_child_list_of(*view, *c) && view_nodes(c@) == children_of(view@) && (
            view is Element || view is Fragment),
            None => !(view is Element || view is Fragment) && children_of(view@) == Seq::<
                ViewNode,
            >::empty(),
        },
{
    match view {
        PluginView::Element(el) => Some(&el.children),
        PluginView::Fragment(v) => Some(v),
        _ => None,
    }
}

/// The direct children of `view` that `selector` selects (see [`shallow_matches`]).
pub fn find_shallow_matching<'a>(view: &'a PluginView, selector: &NodeSelector) -> (r: Vec<
    &'a PluginView,
>)
    ensures
        refs_view(r@) == shallow_matches(view@, *selector),
{
    let children = match child_list(view) {
        Some(c) => c,
        None => {
            assert(refs_view(Seq::<&PluginView>::empty()) =~= Seq::<ViewNode>::empty());
            let r: Vec<&PluginView> = Vec::new();
            proof {
                assert(matching(Seq::<ViewNode>::empty(), *selector) =~= Seq::<ViewNode>::empty());
            }
            return r;
        },
    };
    proof {
        lemma_view_nodes(children@);
    }
    let mut r: Vec<&PluginView> = Vec::new();
    let n = children.len();
    match selector {
        NodeSelector::First => {
            if n > 0 {
                r.push(&children[0]);
                assert(refs_view(r@) =~= seq![view_node(children@[0])]);
            } else {
                assert(refs_view(r@) =~= Seq::<ViewNode>::empty());
            }
            return r;
        },
        NodeSelector::Last => {
            if n > 0 {
                r.push(&children[n - 1]);
                assert(refs_view(r@) =~= seq![view_node(children@[n - 1])]);
            } else {
                assert(refs_view(r@) =~= Seq::<ViewNode>::empty());
            }
            return r;
        },
        NodeSelector::Index(i) => {
            if *i < n {
                r.push(&children[*i]);
                assert(refs_view(r@) =~= seq![view_node(children@[*i as int])]);
            } else {
                assert(refs_view(r@) =~= Seq::<ViewNode>::empty());
            }
            return r;
        },
        _ => {},
    }
    let ghost cv = view_nodes(children@);
    assert(cv.take(0) =~= Seq::<ViewNode>::empty());
    assert(refs_view(r@) =~= Seq::<ViewNode>::empty());
    for k in 0..n
        invariant
            n == children@.len(),
            cv == view_nodes(children@),
            cv.len() == n,
            forall|j: int| 0 <= j < n ==> #[trigger] cv[j] == view_node(children@[j]),
            refs_view(r@) == matching(cv.take(k as int), *selector),
    {
        assert(cv.take(k + 1).drop_last() =~= cv.take(k as int));
        let ghost before = r@;
        if node_matches(&children[k], selector) {
            r.push(&children[k]);
            assert(refs_view(r@) =~= refs_view(before).push(cv[k as int]));
        }
    }
    assert(cv.take(n as int) =~= cv);
    r
}

/// The children a recursive search descends into (those of elements and fragments).
pub open spec fn collect_matches(v: ViewNode, sel: NodeSelector) -> Seq<ViewNode>
    decreases v, 0nat,
{
    let own: Seq<ViewNode> = if node_matches_spec(v, sel) { seq![v] } else { seq![] };
    match v {
        ViewNode::Element(el) => own + collect_list(el.children, sel),
        ViewNode::Fragment(c) => own + collect_list(c, sel),
        _ => own,
    }
}

/// The matches under each tree of `s`, in order.
pub open spec fn collect_list(s: Seq<ViewNode>, sel: NodeSelector) -> Seq<ViewNode>
    decreases s, 1nat,
{
    if s.len() == 0 {
        seq![]
    } else {
        collect_list(s.drop_last(), sel) + collect_matches(s.last(), sel)
    }
}

/// Pre-order traversal: appends to `out` every node of `view` that matches.
fn collect_recursive<'a>(view: &'a PluginView, selector: &NodeSelector, out: &mut Vec<&'a PluginView>)
    ensures
        refs_view(final(out)@) == refs_view(old(out)@) + collect_matches(view@, *selector),
    decreases view,
{
    let ghost start = out@;
    if node_matches(view, selector) {
        out.push(view);
        assert(refs_view(out@) =~= refs_view(start) + seq![view@]);
    } else {
        assert(refs_view(out@) =~= refs_view(start) + Seq::<ViewNode>::empty());
    }
    let ghost own: Seq<ViewNode> = if node_matches_spec(view@, *selector) {
        seq![view@]
    } else {
        seq![]
    };
    match child_list(view) {
        Some(children) => {
            proof {
                lemma_view_nodes(children@);
            }
            let ghost cv = view_nodes(children@);
            assert(cv.take(0) =~= Seq::<ViewNode>::empty());
            assert(refs_view(out@) =~= refs_view(start) + own + collect_list(cv.take(0), *selector));
            for k in 0..children.len()
                invariant
                    is_child_list_of(*view, *children),
                    view is Element || view is Fragment,
                    cv == view_nodes(children@),
                    cv.len() == children@.len(),
                    forall|j: int| 0 <= j < cv.len() ==> #[trigger] cv[j] == view_node(children@[j]),
                    refs_view(out@) == refs_view(start) + own + collect_list(cv.take(k as int), *selector),
            {
                proof {
                    if view is Element {
                        assert(decreases_to!(*view => (*view)->Element_0));
                        assert(decreases_to!((*view)->Element_0 => (*view)->Element_0.children));
                    } else {
                        assert(decreases_to!(*view => (*view)->Fragment_0));
                    }
                    assert(decreases_to!(*children => children@));
                    assert(decreases_to!(children@ => children@[k as int]));
                }
                let ghost before = out@;
                collect_recursive(&children[k], selector, out);
                proof {
                    assert(cv.take(k + 1).drop_last() =~= cv.take(k as int));
                    assert(cv.take(k + 1).last() == cv[k as int]);
                    assert(refs_view(out@) =~= refs_view(start) + own + collect_list(
                        cv.take(k + 1),
                        *selector,
                    ));
                }
            }
            proof {
                assert(cv.take(cv.len() as int) =~= cv);
                assert(refs_view(out@) =~= refs_view(start) + collect_matches(view@, *selector));
            }
        },
        None => {
            assert(refs_view(out@) =~= refs_view(start) + collect_matches(view@, *selector));
        },
    }
}

/// Every node at any depth of `view` that matches `selector`, in pre-order
/// (see [`collect_matches`]).
pub fn find_recursive_matching<'a>(view: &'a PluginView, selector: &NodeSelector) -> (r: Vec<
    &'a PluginView,
>)
    ensures
        refs_view(r@) == collect_matches(view@, *selector),
{
    let mut out: Vec<&PluginView> = Vec::new();
    collect_recursive(view, selector, &mut out);
    assert(refs_view(Seq::<&PluginView>::empty()) + collect_matches(view@, *selector) =~= collect_matches(
        view@,
        *selector,
    ));
    out
}

} // verus!

verus! {

// ── Rewriting ───────────────────────────────────────────────────────────────

/// Position of the first attribute named `key`, or -1.
pub open spec fn first_key_index(attrs: Seq<(Seq<char>, AttrNode)>, key: Seq<char>) -> int
    decreases attrs.len(),
{
    if attrs.len() == 0 {
        -1
    } else if attrs[0].0 == key {
        0
    } else {
        let r = first_key_index(attrs.drop_first(), key);
        if r < 0 {
            -1
        } else {
            r + 1
        }
    }
}

/// What `first_key_index` finds.
pub proof fn lemma_first_key_index(attrs: Seq<(Seq<char>, AttrNode)>, key: Seq<char>)
    ensures
        -1 <= first_key_index(attrs, key) < attrs.len(),
        first_key_index(attrs, key) >= 0 ==> attrs[first_key_index(attrs, key)].0 == key,
        forall|j: int|
            0 <= j < attrs.len() && (first_key_index(attrs, key) < 0 || j < first_key_index(
                attrs,
                key,
            )) ==> #[trigger] attrs[j].0 != key,
    decreases attrs.len(),
{
    if attrs.len() > 0 && attrs[0].0 != key {
        lemma_first_key_index(attrs.drop_first(), key);
        assert forall|j: int|
            0 <= j < attrs.len() && (first_key_index(attrs, key) < 0 || j < first_key_index(
                attrs,
                key,
            )) implies #[trigger] attrs[j].0 != key by {
            if j > 0 {
                assert(attrs.drop_first()[j - 1] == attrs[j]);
            }
        }
    }
}

/// The attribute list after adding class `cls`: appended to the first `class`
/// attribute when that one holds a string, or as a new `class` attribute otherwise.
pub open spec fn with_class(attrs: Seq<(Seq<char>, AttrNode)>, cls: Seq<char>) -> Seq<
    (Seq<char>, AttrNode),
> {
    let i = first_key_index(attrs, "class"@);
    if i >= 0 && attrs[i].1 is Str {
        attrs.update(i, (attrs[i].0, AttrNode::Str(attrs[i].1->Str_0 + seq![' '] + cls)))
    } else {
        attrs.push(("class"@, AttrNode::Str(cls)))
    }
}

/// The attribute list after setting `key` to `value`: the first attribute named
/// `key` takes the value, or a new attribute is appended.
pub open spec fn with_attr(attrs: Seq<(Seq<char>, AttrNode)>, key: Seq<char>, value: AttrNode) -> Seq<
    (Seq<char>, AttrNode),
> {
    let i = first_key_index(attrs, key);
    if i >= 0 {
        attrs.update(i, (attrs[i].0, value))
    } else {
        attrs.push((key, value))
    }
}

/// An element with its attributes replaced; any other tree unchanged.
pub open spec fn with_attrs_of(v: ViewNode, attrs: Seq<(Seq<char>, AttrNode)>) -> ViewNode {
    match v {
        ViewNode::Element(el) => ViewNode::Element(ElementNode { attrs, ..el }),
        _ => v,
    }
}

/// Position of the first attribute named `key`.
fn find_attr(attrs: &Vec<(String, AttrValue)>, key: &str) -> (r: Option<usize>)
    ensures
        match r {
            Some(i) => i < attrs@.len() && i as int == first_key_index(attrs_view(attrs@), key@),
            None => first_key_index(attrs_view(attrs@), key@) < 0,
        },
{
    proof {
        lemma_first_key_index(attrs_view(attrs@), key@);
    }
    let ghost av = attrs_view(attrs@);
    for i in 0..attrs.len()
        invariant
            av == attrs_view(attrs@),
            -1 <= first_key_index(av, key@) < av.len(),
            first_key_index(av, key@) >= 0 ==> av[first_key_index(av, key@)].0 == key@,
            forall|j: int|
                0 <= j < av.len() && (first_key_index(av, key@) < 0 || j < first_key_index(
                    av,
                    key@,
                )) ==> #[trigger] av[j].0 != key@,
            forall|j: int| 0 <= j < i ==> #[trigger] av[j].0 != key@,
    {
        if str_eq(attrs[i].0.as_str(), key) {
            assert(av[i as int].0 == key@);
            return Some(i);
        }
    }
    None
}

/// The text of attribute `name` as a renderer reads it: the value of the first
/// attribute so named when that value is a string, the empty string otherwise.
pub open spec fn string_attr_of(attrs: Seq<(Seq<char>, AttrNode)>, name: Seq<char>) -> Seq<char> {
    let i = first_key_index(attrs, name);
    if i >= 0 && attrs[i].1 is Str {
        attrs[i].1->Str_0
    } else {
        seq![]
    }
}

/// The text of attribute `name` (see [`string_attr_of`]).
pub fn string_attr(attrs: &Vec<(String, AttrValue)>, name: &str) -> (r: String)
    ensures
        r@ == string_attr_of(attrs_view(attrs@), name@),
{
    match find_attr(attrs, name) {
        Some(i) => match &attrs[i].1 {
            AttrValue::String(v) => v.clone(),
            _ => String::new(),
        },
        None => String::new(),
    }
}

/// The handler bound to `event`: that of the first binding for it.
pub fn first_handler(handlers: &Vec<BoundEventHandler>, event: DomEvent) -> (r: Option<HandlerId>)
    ensures
        match r {
            Some(h) => exists|i: int|
                0 <= i < handlers@.len() && handlers@[i].event == event && h == handlers@[i].handler_id
                    && forall|j: int| 0 <= j < i ==> (#[trigger] handlers@[j]).event != event,
            None => forall|j: int| 0 <= j < handlers@.len() ==> (#[trigger] handlers@[j]).event != event,
        },
{
    for i in 0..handlers.len()
        invariant
            forall|j: int| 0 <= j < i ==> (#[trigger] handlers@[j]).event != event,
    {
        if handlers[i].event == event {
            return Some(HandlerId(handlers[i].handler_id.0.clone()));
        }
    }
    None
}

/// Add CSS class `cls` to an element (see [`with_class`]); any other view is returned
/// unchanged.
pub fn add_class_to_view(view: PluginView, cls: String) -> (r: PluginView)
    ensures
        r@ == (match view@ {
            ViewNode::Element(el) => with_attrs_of(view@, with_class(el.attrs, cls@)),
            _ => view@,
        }),
{
    match view {
        PluginView::Element(el) => {
            let mut el = el;
            let ghost av = attrs_view(el.attrs@);
            let idx = find_attr(&el.attrs, "class");
            let mut done = false;
            if let Some(i) = idx {
                if let AttrValue::String(existing) = &el.attrs[i].1 {
                    let mut joined = existing.clone();
                    joined.append(" ");
                    joined.append(cls.as_str());
                    let k = el.attrs[i].0.clone();
                    let ghost before = el.attrs@;
                    el.attrs.set(i, (k, AttrValue::String(joined)));
                    proof {
                        reveal_strlit(" ");
                        assert(" "@ =~= seq![' ']);
                        assert(av[i as int].1 == AttrNode::Str(existing@));
                        assert(joined@ == existing@ + seq![' '] + cls@);
                        assert(attrs_view(el.attrs@) =~= av.update(
                            i as int,
                            (av[i as int].0, AttrNode::Str(existing@ + seq![' '] + cls@)),
                        ));
                        assert(attrs_view(el.attrs@) =~= with_class(av, cls@));
                    }
                    done = true;
                }
            }
            if !done {
                let ghost before = el.attrs@;
                el.attrs.push(("class".to_owned(), AttrValue::String(cls)));
                proof {
                    assert(attrs_view(el.attrs@) =~= with_class(av, cls@));
                }
            }
            PluginView::Element(el)
        },
        other => other,
    }
}

/// Set attribute `key` of an element to `value` (see [`with_attr`]); any other view is
/// returned unchanged.
pub fn set_attr_on_view(view: PluginView, key: String, value: AttrValue) -> (r: PluginView)
    ensures
        r@ == (match view@ {
            ViewNode::Element(el) => with_attrs_of(view@, with_attr(el.attrs, key@, attr_node(value))),
            _ => view@,
        }),
{
    match view {
        PluginView::Element(el) => {
            let mut el = el;
            let ghost av = attrs_view(el.attrs@);
            let idx = find_attr(&el.attrs, key.as_str());
            match idx {
                Some(i) => {
                    let k = el.attrs[i].0.clone();
                    el.attrs.set(i, (k, value));
                    proof {
                        assert(attrs_view(el.attrs@) =~= with_attr(av, key@, attr_node(value)));
                    }
                },
                None => {
                    el.attrs.push((key, value));
                    proof {
                        assert(attrs_view(el.attrs@) =~= with_attr(av, key@, attr_node(value)));
                    }
                },
            }
            PluginView::Element(el)
        },
        other => other,
    }
}

/// `w` with every `__target__` placeholder reachable through elements and fragments
/// replaced by `t`.
pub open spec fn resolve_target(w: ViewNode, t: ViewNode) -> ViewNode
    decreases w, 0nat,
{
    match w {
        ViewNode::HostComponent(r) => if r.name == "__target__"@ {
            t
        } else {
            w
        },
        ViewNode::Element(el) => ViewNode::Element(
            ElementNode { children: resolve_target_list(el.children, t), ..el },
        ),
        ViewNode::Fragment(c) => ViewNode::Fragment(resolve_target_list(c, t)),
        _ => w,
    }
}

/// `resolve_target` applied to each tree of `s`.
pub open spec fn resolve_target_list(s: Seq<ViewNode>, t: ViewNode) -> Seq<ViewNode>
    decreases s, 1nat,
{
    if s.len() == 0 {
        seq![]
    } else {
        resolve_target_list(s.drop_last(), t).push(resolve_target(s.last(), t))
    }
}

/// `resolve_target_list` is element-wise.
pub proof fn lemma_resolve_target_list(s: Seq<ViewNode>, t: ViewNode)
    ensures
        resolve_target_list(s, t).len() == s.len(),
        forall|i: int|
            0 <= i < s.len() ==> #[trigger] resolve_target_list(s, t)[i] == resolve_target(s[i], t),
    decreases s.len(),
{
    if s.len() > 0 {
        lemma_resolve_target_list(s.drop_last(), t);
        assert forall|i: int| 0 <= i < s.len() implies #[trigger] resolve_target_list(s, t)[i]
            == resolve_target(s[i], t) by {
            if i < s.len() - 1 {
                assert(s.drop_last()[i] == s[i]);
            }
        }
    }
}

fn resolve_target_ref(w: &PluginView, t: &PluginView) -> (r: PluginView)
    ensures
        r@ == resolve_target(w@, t@),
    decreases w,
{
    match w {
        PluginView::HostComponent(hr) => {
            if str_eq(hr.name.as_str(), "__target__") {
                copy_view(t)
            } else {
                copy_view(w)
            }
        },
        PluginView::Element(el) => {
            let children = resolve_target_children(w, &el.children, t);
            PluginView::Element(
                ViewElement {
                    tag: el.tag.clone(),
                    name: copy_opt_string(&el.name),
                    key: copy_opt_string(&el.key),
                    attrs: copy_attrs(&el.attrs),
                    handlers: copy_handlers(&el.handlers),
                    children,
                },
            )
        },
        PluginView::Fragment(c) => PluginView::Fragment(resolve_target_children(w, c, t)),
        _ => copy_view(w),
    }
}

fn resolve_target_children(parent: &PluginView, c: &Vec<PluginView>, t: &PluginView) -> (r: Vec<PluginView>)
    requires
        is_child_list_of(*parent, *c),
        parent is Element || parent is Fragment,
    ensures
        view_nodes(r@) == resolve_target_list(view_nodes(c@), t@),
    decreases parent, 1nat,
{
    let mut r: Vec<PluginView> = Vec::new();
    proof {
        lemma_view_nodes(c@);
    }
    for i in 0..c.len()
        invariant
            is_child_list_of(*parent, *c),
            parent is Element || parent is Fragment,
            r@.len() == i,
            view_nodes(c@).len() == c@.len(),
            forall|j: int| 0 <= j < c@.len() ==> #[trigger] view_nodes(c@)[j] == view_node(c@[j]),
            forall|j: int|
                0 <= j < i ==> view_node(#[trigger] r@[j]) == resolve_target(view_node(c@[j]), t@),
    {
        proof {
            if parent is Element {
                assert(decreases_to!(*parent => (*parent)->Element_0));
                assert(decreases_to!((*parent)->Element_0 => (*parent)->Element_0.children));
            } else {
                assert(decreases_to!(*parent => (*parent)->Fragment_0));
            }
            assert(decreases_to!(*c => c@));
            assert(decreases_to!(c@ => c@[i as int]));
        }
        let x = resolve_target_ref(&c[i], t);
        r.push(x);
    }
    proof {
        lemma_view_nodes(r@);
        lemma_resolve_target_list(view_nodes(c@), t@);
        assert(view_nodes(r@) =~= resolve_target_list(view_nodes(c@), t@));
    }
    r
}

/// Replace the `__target__` placeholders of `wrapper` by `target`
/// (see [`resolve_target`]).
pub fn resolve_target_in_view(wrapper: PluginView, target: PluginView) -> (r: PluginView)
    ensures
        r@ == resolve_target(wrapper@, target@),
{
    resolve_target_ref(&wrapper, &target)
}

/// `v` holds a `__content__` placeholder at some depth reachable through elements and
/// fragments.
pub open spec fn has_content_placeholder(v: ViewNode) -> bool
    decreases v, 0nat,
{
    match v {
        ViewNode::HostComponent(r) => r.name == "__content__"@,
        ViewNode::Element(el) => any_has_content_placeholder(el.children),
        ViewNode::Fragment(c) => any_has_content_placeholder(c),
        _ => false,
    }
}

/// Some tree of `s` holds a `__content__` placeholder.
pub open spec fn any_has_content_placeholder(s: Seq<ViewNode>) -> bool
    decreases s, 1nat,
{
    if s.len() == 0 {
        false
    } else {
        any_has_content_placeholder(s.drop_last()) || has_content_placeholder(s.last())
    }
}

/// Whether `view` holds a `__content__` placeholder (see [`has_content_placeholder`]).
pub fn view_contains_content_placeholder(view: &PluginView) -> (b: bool)
    ensures
        b == has_content_placeholder(view@),
    decreases view,
{
    match view {
        PluginView::HostComponent(r) => str_eq(r.name.as_str(), "__content__"),
        PluginView::Element(_) | PluginView::Fragment(_) => {
            let c = match child_list(view) {
                Some(c) => c,
                None => {
                    return false;
                },
            };
            let ghost cv = view_nodes(c@);
            proof {
                lemma_view_nodes(c@);
                assert(cv.take(0) =~= Seq::<ViewNode>::empty());
            }
            let mut found = false;
            for k in 0..c.len()
                invariant
                    is_child_list_of(*view, *c),
                    view is Element || view is Fragment,
                    cv == view_nodes(c@),
                    cv.len() == c@.len(),
                    forall|j: int| 0 <= j < cv.len() ==> #[trigger] cv[j] == view_node(c@[j]),
                    found == any_has_content_placeholder(cv.take(k as int)),
            {
                proof {
                    if view is Element {
                        assert(decreases_to!(*view => (*view)->Element_0));
                        assert(decreases_to!((*view)->Element_0 => (*view)->Element_0.children));
                    } else {
                        assert(decreases_to!(*view => (*view)->Fragment_0));
                    }
                    assert(decreases_to!(*c => c@));
                    assert(decreases_to!(c@ => c@[k as int]));
                    assert(cv.take(k + 1).drop_last() =~= cv.take(k as int));
                }
                let here = view_contains_content_placeholder(&c[k]);
                found = found || here;
            }
            proof {
                assert(cv.take(cv.len() as int) =~= cv);
            }
            found
        },
        _ => false,
    }
}

} // verus!

verus! {

// ── Laws of node selection ──────────────────────────────────────────────────

/// A node matches a conjunction of selectors exactly when it matches both, a
/// disjunction exactly when it matches one of them, and a recursive selector exactly
/// when it matches the inner one. In particular an element whose tag is not `t` never
/// matches `And(Tag(t), s)`, whatever `s` is.
pub proof fn law_selector_connectives(v: ViewNode, a: NodeSelector, b: NodeSelector, t: String)
    ensures
        node_matches_spec(v, NodeSelector::And(Box::new(a), Box::new(b))) <==> (node_matches_spec(v, a)
            && node_matches_spec(v, b)),
        node_matches_spec(v, NodeSelector::Or(Box::new(a), Box::new(b))) <==> (node_matches_spec(v, a)
            || node_matches_spec(v, b)),
        node_matches_spec(v, NodeSelector::Recursive(Box::new(a))) <==> node_matches_spec(v, a),
        (v matches ViewNode::Element(el) && el.tag != t@) ==> !node_matches_spec(
            v,
            NodeSelector::And(Box::new(NodeSelector::Tag(t)), Box::new(a)),
        ),
{
    if v matches ViewNode::Element(el) && el.tag != t@ {
        assert(!node_matches_spec(v, NodeSelector::Tag(t)));
    }
}

/// What each simple selector picks out: `Tag(t)` the elements with tag `t`, `Name(n)`
/// the elements named `n`, `HostComponent(n)` the host component references named `n`,
/// `HasClass(c)` the elements with a `class` attribute listing `c`, `DataAttr(k, x)`
/// the elements whose attribute `k` has the string value `x`; the positional
/// selectors pick nothing on their own (they need the parent).
pub proof fn law_simple_selectors(v: ViewNode, s: String, k: String, i: usize)
    ensures
        node_matches_spec(v, NodeSelector::Tag(s)) <==> (v matches ViewNode::Element(el) && el.tag == s@),
        node_matches_spec(v, NodeSelector::Name(s)) <==> (v matches ViewNode::Element(el) && el.name == Some(
            s@,
        )),
        node_matches_spec(v, NodeSelector::HostComponent(s)) <==> (v matches ViewNode::HostComponent(r)
            && r.name == s@),
        node_matches_spec(v, NodeSelector::HasClass(s)) <==> (v matches ViewNode::Element(el) && exists|j: int|
            0 <= j < el.attrs.len() && el.attrs[j].0 == "class"@ && (el.attrs[j].1 matches AttrNode::Str(
                cls,
            ) && whitespace_tokens(cls).contains(s@))),
        node_matches_spec(v, NodeSelector::DataAttr(k, s)) <==> (v matches ViewNode::Element(el) && exists|j: int|
            0 <= j < el.attrs.len() && el.attrs[j] == (k@, AttrNode::Str(s@))),
        !node_matches_spec(v, NodeSelector::First),
        !node_matches_spec(v, NodeSelector::Last),
        !node_matches_spec(v, NodeSelector::Index(i)),
{
    reveal_strlit("class");
}

} // verus!
