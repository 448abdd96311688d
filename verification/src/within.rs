//! Within-transforms: rewriting the nodes that a node selector picks inside a view.
//!
//! `AddClass` and `SetAttr` edit a matched node directly. The other operations need the
//! plugin's view for each matched node: [`within_call_targets`] lists those nodes in
//! the order the host calls the plugin for them, and [`traverse_and_apply`] takes the
//! plugin's answers in that same order and builds the rewritten view. A missing or
//! failed answer leaves its node unchanged.

use vstd::prelude::*;

use crate::protocol::{NodeSelector, SessionCtx, TransformContext, TransformInput, TransformOp};
use crate::tree::{
    add_class_to_view, is_recursive_selector, node_matches, node_matches_spec, resolve_target,
    resolve_target_in_view, set_attr_on_view, with_attr, with_attrs_of, with_class,
};
use crate::viewtree::{
    copy_view, is_child_list_of, lemma_view_nodes, lemma_view_nodes_push, view_node, view_nodes,
    AttrNode, AttrValue, ElementNode, PluginView, ViewElement, ViewNode,
};

verus! {

broadcast use vstd::std_specs::vec::axiom_vec_decreases_to_view;

// ── Model ───────────────────────────────────────────────────────────────────

/// The operation needs the plugin's view (every one but `AddClass` and `SetAttr`).
pub open spec fn needs_call(op: TransformOp) -> bool {
    !(op is AddClass || op is SetAttr)
}

/// The value `SetAttr` writes: its string, or the empty string for any other value.
pub open spec fn set_attr_value(v: AttrValue) -> AttrNode {
    match v {
        AttrValue::String(s) => AttrNode::Str(s@),
        _ => AttrNode::Str(seq![]),
    }
}

/// A matched node after an operation that needs no plugin call.
pub open spec fn direct_edit(c: ViewNode, op: TransformOp) -> ViewNode {
    match (op, c) {
        (TransformOp::AddClass(cls), ViewNode::Element(el)) => with_attrs_of(c, with_class(el.attrs, cls@)),
        (TransformOp::SetAttr(k, v), ViewNode::Element(el)) => with_attrs_of(
            c,
            with_attr(el.attrs, k@, set_attr_value(v)),
        ),
        _ => c,
    }
}

/// What stands in place of matched node `c` given the plugin's answer (`None`: the
/// call failed).
pub open spec fn placed(c: ViewNode, op: TransformOp, answer: Option<ViewNode>) -> Seq<ViewNode> {
    match answer {
        None => seq![c],
        Some(v) => match op {
            TransformOp::InsertBefore => seq![v, c],
            TransformOp::InsertAfter => seq![c, v],
            TransformOp::Replace => seq![v],
            TransformOp::WrapNode => seq![resolve_target(v, c)],
            _ => seq![c],
        },
    }
}

/// The answer at position `i`, or `None` past the end.
pub open spec fn answer_at(answers: Seq<Option<ViewNode>>, i: int) -> Option<ViewNode> {
    if 0 <= i < answers.len() {
        answers[i]
    } else {
        None
    }
}

/// The position of the next answer once the one at `i` is used.
pub open spec fn advance(answers: Seq<Option<ViewNode>>, i: int) -> int {
    if i < answers.len() {
        i + 1
    } else {
        i
    }
}

/// One child of a traversed node: the nodes that replace it, and the position of the
/// next answer. A matched child is rewritten; under a recursive selector an unmatched
/// child is traversed in turn; otherwise it stays.
pub open spec fn within_child(
    c: ViewNode,
    sel: NodeSelector,
    op: TransformOp,
    answers: Seq<Option<ViewNode>>,
    i: int,
) -> (Seq<ViewNode>, int)
    decreases c, 1nat,
{
    if node_matches_spec(c, sel) {
        if needs_call(op) {
            (placed(c, op, answer_at(answers, i)), advance(answers, i))
        } else {
            (seq![direct_edit(c, op)], i)
        }
    } else if sel is Recursive {
        let r = within_node(c, sel, op, answers, i);
        (seq![r.0], r.1)
    } else {
        (seq![c], i)
    }
}

/// A traversed node: the children of an element or fragment are processed in order;
/// any other node stays.
pub open spec fn within_node(
    v: ViewNode,
    sel: NodeSelector,
    op: TransformOp,
    answers: Seq<Option<ViewNode>>,
    i: int,
) -> (ViewNode, int)
    decreases v, 0nat,
{
    match v {
        ViewNode::Element(el) => {
            let r = within_list(el.children, sel, op, answers, i);
            (ViewNode::Element(ElementNode { children: r.0, ..el }), r.1)
        },
        ViewNode::Fragment(c) => {
            let r = within_list(c, sel, op, answers, i);
            (ViewNode::Fragment(r.0), r.1)
        },
        _ => (v, i),
    }
}

/// A child list, processed left to right.
pub open spec fn within_list(
    s: Seq<ViewNode>,
    sel: NodeSelector,
    op: TransformOp,
    answers: Seq<Option<ViewNode>>,
    i: int,
) -> (Seq<ViewNode>, int)
    decreases s, 2nat,
{
    if s.len() == 0 {
        (seq![], i)
    } else {
        let a = within_list(s.drop_last(), sel, op, answers, i);
        let b = within_child(s.last(), sel, op, answers, a.1);
        (a.0 + b.0, b.1)
    }
}

/// The nodes of one child for which the plugin is called, in order.
pub open spec fn targets_child(c: ViewNode, sel: NodeSelector, op: TransformOp) -> Seq<ViewNode>
    decreases c, 1nat,
{
    if node_matches_spec(c, sel) {
        if needs_call(op) {
            seq![c]
        } else {
            seq![]
        }
    } else if sel is Recursive {
        targets_node(c, sel, op)
    } else {
        seq![]
    }
}

/// The nodes under `v` for which the plugin is called, in traversal order.
pub open spec fn targets_node(v: ViewNode, sel: NodeSelector, op: TransformOp) -> Seq<ViewNode>
    decreases v, 0nat,
{
    match v {
        ViewNode::Element(el) => targets_list(el.children, sel, op),
        ViewNode::Fragment(c) => targets_list(c, sel, op),
        _ => seq![],
    }
}

/// The call targets of a child list, in order.
pub open spec fn targets_list(s: Seq<ViewNode>, sel: NodeSelector, op: TransformOp) -> Seq<ViewNode>
    decreases s, 2nat,
{
    if s.len() == 0 {
        seq![]
    } else {
        targets_list(s.drop_last(), sel, op) + targets_child(s.last(), sel, op)
    }
}

/// The models of a list of optional answers.
pub open spec fn answer_views(s: Seq<Option<PluginView>>) -> Seq<Option<ViewNode>> {
    s.map_values(
        |o: Option<PluginView>|
            match o {
                Some(v) => Some(view_node(v)),
                None => None,
            },
    )
}

// ── Laws ────────────────────────────────────────────────────────────────────

/// One answer is used per call target, as far as the answers reach: starting at `i`,
/// the traversal ends at `min(i + targets, answers.len())`.
pub proof fn law_one_answer_per_target(
    v: ViewNode,
    sel: NodeSelector,
    op: TransformOp,
    answers: Seq<Option<ViewNode>>,
    i: int,
)
    requires
        0 <= i <= answers.len(),
    ensures
        within_node(v, sel, op, answers, i).1 == if i + targets_node(v, sel, op).len()
            <= answers.len() {
            i + targets_node(v, sel, op).len()
        } else {
            answers.len() as int
        },
    decreases v, 0nat,
{
    match v {
        ViewNode::Element(el) => lemma_list_answers(el.children, sel, op, answers, i),
        ViewNode::Fragment(c) => lemma_list_answers(c, sel, op, answers, i),
        _ => {},
    }
}

proof fn lemma_child_answers(
    c: ViewNode,
    sel: NodeSelector,
    op: TransformOp,
    answers: Seq<Option<ViewNode>>,
    i: int,
)
    requires
        0 <= i <= answers.len(),
    ensures
        within_child(c, sel, op, answers, i).1 == if i + targets_child(c, sel, op).len()
            <= answers.len() {
            i + targets_child(c, sel, op).len()
        } else {
            answers.len() as int
        },
    decreases c, 1nat,
{
    if !node_matches_spec(c, sel) && sel is Recursive {
        law_one_answer_per_target(c, sel, op, answers, i);
    }
}

proof fn lemma_list_answers(
    s: Seq<ViewNode>,
    sel: NodeSelector,
    op: TransformOp,
    answers: Seq<Option<ViewNode>>,
    i: int,
)
    requires
        0 <= i <= answers.len(),
    ensures
        within_list(s, sel, op, answers, i).1 == if i + targets_list(s, sel, op).len()
            <= answers.len() {
            i + targets_list(s, sel, op).len()
        } else {
            answers.len() as int
        },
    decreases s, 2nat,
{
    if s.len() > 0 {
        lemma_list_answers(s.drop_last(), sel, op, answers, i);
        let a = within_list(s.drop_last(), sel, op, answers, i);
        lemma_child_answers(s.last(), sel, op, answers, a.1);
    }
}

/// A call that fails leaves its node unchanged and the traversal goes on: when every
/// answer is a failure, a within-transform that needs the plugin returns the view as
/// it was.
pub proof fn law_failed_calls_keep_view(
    v: ViewNode,
    sel: NodeSelector,
    op: TransformOp,
    answers: Seq<Option<ViewNode>>,
    i: int,
)
    requires
        needs_call(op),
        forall|j: int| 0 <= j < answers.len() ==> #[trigger] answers[j] is None,
    ensures
        within_node(v, sel, op, answers, i).0 == v,
    decreases v, 0nat,
{
    match v {
        ViewNode::Element(el) => {
            lemma_list_failed(el.children, sel, op, answers, i);
            assert(ElementNode { children: el.children, ..el } == el);
        },
        ViewNode::Fragment(c) => lemma_list_failed(c, sel, op, answers, i),
        _ => {},
    }
}

proof fn lemma_list_failed(
    s: Seq<ViewNode>,
    sel: NodeSelector,
    op: TransformOp,
    answers: Seq<Option<ViewNode>>,
    i: int,
)
    requires
        needs_call(op),
        forall|j: int| 0 <= j < answers.len() ==> #[trigger] answers[j] is None,
    ensures
        within_list(s, sel, op, answers, i).0 == s,
    decreases s, 2nat,
{
    if s.len() > 0 {
        lemma_list_failed(s.drop_last(), sel, op, answers, i);
        let a = within_list(s.drop_last(), sel, op, answers, i);
        let c = s.last();
        if node_matches_spec(c, sel) {
            assert(answer_at(answers, a.1) is None);
        } else if sel is Recursive {
            law_failed_calls_keep_view(c, sel, op, answers, a.1);
        }
        assert(within_child(c, sel, op, answers, a.1).0 == seq![c]);
        assert(s.drop_last() + seq![c] =~= s);
    }
}

/// A selector that matches nothing leaves the view unchanged and asks for no call.
pub proof fn law_no_match_keeps_view(
    v: ViewNode,
    sel: NodeSelector,
    op: TransformOp,
    answers: Seq<Option<ViewNode>>,
    i: int,
)
    requires
        forall|n: ViewNode| !#[trigger] node_matches_spec(n, sel),
    ensures
        within_node(v, sel, op, answers, i) == (v, i),
        targets_node(v, sel, op).len() == 0,
    decreases v, 0nat,
{
    match v {
        ViewNode::Element(el) => {
            lemma_list_no_match(el.children, sel, op, answers, i);
            assert(ElementNode { children: el.children, ..el } == el);
        },
        ViewNode::Fragment(c) => lemma_list_no_match(c, sel, op, answers, i),
        _ => {},
    }
}

proof fn lemma_list_no_match(
    s: Seq<ViewNode>,
    sel: NodeSelector,
    op: TransformOp,
    answers: Seq<Option<ViewNode>>,
    i: int,
)
    requires
        forall|n: ViewNode| !#[trigger] node_matches_spec(n, sel),
    ensures
        within_list(s, sel, op, answers, i) == (s, i),
        targets_list(s, sel, op).len() == 0,
    decreases s, 2nat,
{
    if s.len() > 0 {
        lemma_list_no_match(s.drop_last(), sel, op, answers, i);
        let c = s.last();
        assert(!node_matches_spec(c, sel));
        if sel is Recursive {
            law_no_match_keeps_view(c, sel, op, answers, i);
        }
        assert(within_child(c, sel, op, answers, i) == (seq![c], i));
        assert(targets_child(c, sel, op).len() == 0);
        assert(s.drop_last() + seq![c] =~= s);
    } else {
        assert(s =~= Seq::<ViewNode>::empty());
    }
}

// ── Traversal ───────────────────────────────────────────────────────────────

/// The value `SetAttr` writes (see [`set_attr_value`]).
fn set_attr_text(v: &AttrValue) -> (r: AttrValue)
    ensures
        crate::viewtree::attr_node(r) == set_attr_value(*v),
{
    match v {
        AttrValue::String(s) => AttrValue::String(s.clone()),
        _ => AttrValue::String(String::new()),
    }
}

/// The answer at position `i`, if there is one and the call succeeded.
fn answer_ref(answers: &Vec<Option<PluginView>>, i: usize) -> (r: Option<&PluginView>)
    ensures
        match r {
            Some(v) => answer_at(answer_views(answers@), i as int) == Some(view_node(*v)),
            None => answer_at(answer_views(answers@), i as int) is None,
        },
{
    if i < answers.len() {
        match &answers[i] {
            Some(v) => Some(v),
            None => None,
        }
    } else {
        None
    }
}

/// Handles one child: a match is rewritten (directly, or with the answer at `i`), an
/// unmatched child is traversed under a recursive selector and kept otherwise. What
/// replaces the child is appended to `out`; the result is the next answer's position.
pub fn apply_within_op_to_child(
    child: &PluginView,
    selector: &NodeSelector,
    op: &TransformOp,
    answers: &Vec<Option<PluginView>>,
    i: usize,
    out: &mut Vec<PluginView>,
) -> (next: usize)
    requires
        i <= answers.len(),
    ensures
        view_nodes(final(out)@) == view_nodes(old(out)@) + within_child(
            child@,
            *selector,
            *op,
            answer_views(answers@),
            i as int,
        ).0,
        next == within_child(child@, *selector, *op, answer_views(answers@), i as int).1,
        next <= answers.len(),
    decreases child, 2nat,
{
    let ghost av = answer_views(answers@);
    let ghost start = out@;
    if node_matches(child, selector) {
        match op {
            TransformOp::AddClass(cls) => {
                let r = add_class_to_view(copy_view(child), cls.clone());
                out.push(r);
                proof {
                    lemma_view_nodes_push(start, r);
                }
                i
            },
            TransformOp::SetAttr(k, v) => {
                let r = set_attr_on_view(copy_view(child), k.clone(), set_attr_text(v));
                out.push(r);
                proof {
                    lemma_view_nodes_push(start, r);
                }
                i
            },
            _ => {
                let next = if i < answers.len() {
                    i + 1
                } else {
                    i
                };
                let ghost c = child@;
                match answer_ref(answers, i) {
                    None => {
                        let r = copy_view(child);
                        out.push(r);
                        proof {
                            lemma_view_nodes_push(start, r);
                        }
                    },
                    Some(v) => {
                        match op {
                            TransformOp::InsertBefore => {
                                let a = copy_view(v);
                                let b = copy_view(child);
                                out.push(a);
                                out.push(b);
                                proof {
                                    lemma_view_nodes_push(start, a);
                                    lemma_view_nodes_push(start.push(a), b);
                                    assert(view_nodes(start) + seq![v@, c] =~= view_nodes(
                                        start,
                                    ).push(v@).push(c));
                                }
                            },
                            TransformOp::InsertAfter => {
                                let a = copy_view(child);
                                let b = copy_view(v);
                                out.push(a);
                                out.push(b);
                                proof {
                                    lemma_view_nodes_push(start, a);
                                    lemma_view_nodes_push(start.push(a), b);
                                    assert(view_nodes(start) + seq![c, v@] =~= view_nodes(
                                        start,
                                    ).push(c).push(v@));
                                }
                            },
                            TransformOp::Replace => {
                                let a = copy_view(v);
                                out.push(a);
                                proof {
                                    lemma_view_nodes_push(start, a);
                                }
                            },
                            TransformOp::WrapNode => {
                                let a = resolve_target_in_view(copy_view(v), copy_view(child));
                                out.push(a);
                                proof {
                                    lemma_view_nodes_push(start, a);
                                }
                            },
                            _ => {
                                let a = copy_view(child);
                                out.push(a);
                                proof {
                                    lemma_view_nodes_push(start, a);
                                }
                            },
                        }
                    },
                }
                next
            },
        }
    } else if is_recursive_selector(selector) {
        let (r, next) = traverse_node(child, selector, op, answers, i);
        out.push(r);
        proof {
            lemma_view_nodes_push(start, r);
        }
        next
    } else {
        let r = copy_view(child);
        out.push(r);
        proof {
            lemma_view_nodes_push(start, r);
        }
        i
    }
}

/// The rewritten child list `c` of `parent`, and the next answer's position.
fn traverse_children(
    parent: &PluginView,
    c: &Vec<PluginView>,
    selector: &NodeSelector,
    op: &TransformOp,
    answers: &Vec<Option<PluginView>>,
    i: usize,
) -> (r: (Vec<PluginView>, usize))
    requires
        is_child_list_of(*parent, *c),
        parent is Element || parent is Fragment,
        i <= answers.len(),
    ensures
        view_nodes(r.0@) == within_list(view_nodes(c@), *selector, *op, answer_views(answers@), i as int).0,
        r.1 == within_list(view_nodes(c@), *selector, *op, answer_views(answers@), i as int).1,
        r.1 <= answers.len(),
    decreases parent, 0nat,
{
    let ghost av = answer_views(answers@);
    let ghost cv = view_nodes(c@);
    proof {
        lemma_view_nodes(c@);
        assert(cv.take(0) =~= Seq::<ViewNode>::empty());
    }
    let mut out: Vec<PluginView> = Vec::new();
    let mut next = i;
    for k in 0..c.len()
        invariant
            is_child_list_of(*parent, *c),
            parent is Element || parent is Fragment,
            av == answer_views(answers@),
            cv == view_nodes(c@),
            cv.len() == c@.len(),
            forall|j: int| 0 <= j < cv.len() ==> #[trigger] cv[j] == view_node(c@[j]),
            next <= answers.len(),
            view_nodes(out@) == within_list(cv.take(k as int), *selector, *op, av, i as int).0,
            next == within_list(cv.take(k as int), *selector, *op, av, i as int).1,
    {
        proof {
            if parent is Element {
                assert(decreases_to!(*parent => (*parent)->Element_0));
                assert(decreases_to!((*parent)->Element_0 => (*parent)->Element_0.children));
            } else {
                assert(decreases_to!(*parent => (*parent)->Fragment_0));
            }
            assert(decreases_to!(*c => c@));
            assert(decreases_to!(c@ => c@[k as int]));
            assert(cv.take(k + 1).drop_last() =~= cv.take(k as int));
            assert(cv.take(k + 1).last() == cv[k as int]);
        }
        next = apply_within_op_to_child(&c[k], selector, op, answers, next, &mut out);
    }
    proof {
        assert(cv.take(cv.len() as int) =~= cv);
    }
    (out, next)
}

/// A node with its children rewritten, and the next answer's position.
fn traverse_node(
    view: &PluginView,
    selector: &NodeSelector,
    op: &TransformOp,
    answers: &Vec<Option<PluginView>>,
    i: usize,
) -> (r: (PluginView, usize))
    requires
        i <= answers.len(),
    ensures
        r.0@ == within_node(view@, *selector, *op, answer_views(answers@), i as int).0,
        r.1 == within_node(view@, *selector, *op, answer_views(answers@), i as int).1,
        r.1 <= answers.len(),
    decreases view, 1nat,
{
    match view {
        PluginView::Element(el) => {
            let (children, next) = traverse_children(view, &el.children, selector, op, answers, i);
            let r = PluginView::Element(
                ViewElement {
                    tag: el.tag.clone(),
                    name: crate::viewtree::copy_opt_string(&el.name),
                    key: crate::viewtree::copy_opt_string(&el.key),
                    attrs: crate::viewtree::copy_attrs(&el.attrs),
                    handlers: crate::viewtree::copy_handlers(&el.handlers),
                    children,
                },
            );
            (r, next)
        },
        PluginView::Fragment(c) => {
            let (children, next) = traverse_children(view, c, selector, op, answers, i);
            (PluginView::Fragment(children), next)
        },
        _ => (copy_view(view), i),
    }
}

/// Applies a within-transform to `view`: the children of the root (and, under a
/// recursive selector, of every unmatched descendant) that `selector` picks are
/// rewritten by `op`. `answers` holds the plugin's view for each call target of
/// [`within_call_targets`], in that order, `None` where the call failed.
pub fn traverse_and_apply(
    view: &PluginView,
    selector: &NodeSelector,
    op: &TransformOp,
    answers: &Vec<Option<PluginView>>,
) -> (r: PluginView)
    ensures
        r@ == within_node(view@, *selector, *op, answer_views(answers@), 0).0,
{
    traverse_node(view, selector, op, answers, 0).0
}

/// Appends the call targets of `view` to `out` (see [`targets_node`]).
fn collect_targets_node(view: &PluginView, selector: &NodeSelector, op: &TransformOp, out: &mut Vec<PluginView>)
    ensures
        view_nodes(final(out)@) == view_nodes(old(out)@) + targets_node(view@, *selector, *op),
    decreases view, 1nat,
{
    let ghost start = out@;
    match view {
        PluginView::Element(el) => collect_targets_children(view, &el.children, selector, op, out),
        PluginView::Fragment(c) => collect_targets_children(view, c, selector, op, out),
        _ => {
            assert(view_nodes(out@) =~= view_nodes(start) + targets_node(view@, *selector, *op));
        },
    }
}

/// Appends the call targets of the child list `c` of `parent` to `out`.
fn collect_targets_children(
    parent: &PluginView,
    c: &Vec<PluginView>,
    selector: &NodeSelector,
    op: &TransformOp,
    out: &mut Vec<PluginView>,
)
    requires
        is_child_list_of(*parent, *c),
        parent is Element || parent is Fragment,
    ensures
        view_nodes(final(out)@) == view_nodes(old(out)@) + targets_list(view_nodes(c@), *selector, *op),
    decreases parent, 0nat,
{
    let ghost cv = view_nodes(c@);
    let ghost start = out@;
    proof {
        lemma_view_nodes(c@);
        assert(cv.take(0) =~= Seq::<ViewNode>::empty());
        assert(view_nodes(out@) =~= view_nodes(start) + targets_list(cv.take(0), *selector, *op));
    }
    for k in 0..c.len()
        invariant
            is_child_list_of(*parent, *c),
            parent is Element || parent is Fragment,
            cv == view_nodes(c@),
            cv.len() == c@.len(),
            forall|j: int| 0 <= j < cv.len() ==> #[trigger] cv[j] == view_node(c@[j]),
            view_nodes(out@) == view_nodes(start) + targets_list(cv.take(k as int), *selector, *op),
    {
        proof {
            if parent is Element {
                assert(decreases_to!(*parent => (*parent)->Element_0));
                assert(decreases_to!((*parent)->Element_0 => (*parent)->Element_0.children));
            } else {
                assert(decreases_to!(*parent => (*parent)->Fragment_0));
            }
            assert(decreases_to!(*c => c@));
            assert(decreases_to!(c@ => c@[k as int]));
            assert(cv.take(k + 1).drop_last() =~= cv.take(k as int));
            assert(cv.take(k + 1).last() == cv[k as int]);
        }
        let ghost before = out@;
        collect_targets_child(&c[k], selector, op, out);
        proof {
            assert(view_nodes(out@) =~= view_nodes(start) + targets_list(cv.take(k + 1), *selector, *op));
        }
    }
    proof {
        assert(cv.take(cv.len() as int) =~= cv);
    }
}

/// Appends the call targets of one child to `out` (see [`targets_child`]).
fn collect_targets_child(child: &PluginView, selector: &NodeSelector, op: &TransformOp, out: &mut Vec<PluginView>)
    ensures
        view_nodes(final(out)@) == view_nodes(old(out)@) + targets_child(child@, *selector, *op),
    decreases child, 2nat,
{
    let ghost start = out@;
    if node_matches(child, selector) {
        match op {
            TransformOp::AddClass(_) | TransformOp::SetAttr(_, _) => {
                assert(view_nodes(out@) =~= view_nodes(start) + targets_child(child@, *selector, *op));
            },
            _ => {
                let r = copy_view(child);
                out.push(r);
                proof {
                    lemma_view_nodes_push(start, r);
                    assert(view_nodes(out@) =~= view_nodes(start) + targets_child(child@, *selector, *op));
                }
            },
        }
    } else if is_recursive_selector(selector) {
        collect_targets_node(child, selector, op, out);
    } else {
        assert(view_nodes(out@) =~= view_nodes(start) + targets_child(child@, *selector, *op));
    }
}

/// The nodes of `view` for which the plugin is called when `op` is applied within it,
/// in the order the answers are expected by [`traverse_and_apply`]. Empty for `AddClass`
/// and `SetAttr`, which need no call.
pub fn within_call_targets(view: &PluginView, selector: &NodeSelector, op: &TransformOp) -> (r: Vec<
    PluginView,
>)
    ensures
        view_nodes(r@) == targets_node(view@, *selector, *op),
{
    let mut out: Vec<PluginView> = Vec::new();
    collect_targets_node(view, selector, op, &mut out);
    assert(view_nodes(Seq::<PluginView>::empty()) + targets_node(view@, *selector, *op) =~= targets_node(
        view@,
        *selector,
        *op,
    ));
    out
}

/// The input of the plugin call for within-target `target`: the target itself as the
/// original for `Replace` and `WrapNode`, none for the other operations; the outer
/// context and the session as given.
pub fn within_transform_input(
    op: &TransformOp,
    target: PluginView,
    context: TransformContext,
    session: SessionCtx,
) -> (t: TransformInput)
    ensures
        (*op is Replace || *op is WrapNode) ==> t.original == Some(target),
        !(*op is Replace || *op is WrapNode) ==> t.original is None,
        t.context == context,
        t.session == session,
{
    let original = match op {
        TransformOp::Replace | TransformOp::WrapNode => Some(target),
        _ => None,
    };
    TransformInput { original, context, session }
}

} // verus!
