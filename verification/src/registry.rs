//! Registries that dispatch reads at render time: slots, hooks, transforms, API and
//! page routes, event subscribers. Every list of contributions is kept in descending
//! priority, ties in the order of insertion.

use vstd::prelude::*;

use crate::keymap::{KeyMap, MapKey};
use crate::protocol::{
    copy_node_selector, copy_plugin_id, route_matches, route_params, same_target, selector_key,
    selectors_equal, string_map_view, NodeSelector, PluginId, RoutePattern, Selector, TransformOp,
};
use crate::viewtree::copy_attr;

verus! {

broadcast use vstd::seq_lib::lemma_seq_contains_after_push;

// ── Ranked lists ────────────────────────────────────────────────────────────

/// A contribution with a priority; higher comes first.
pub trait Ranked {
    spec fn rank(&self) -> i32;

    fn rank_of(&self) -> (r: i32)
        ensures
            r == self.rank(),
    ;
}

impl Ranked for (i32, PluginId) {
    open spec fn rank(&self) -> i32 {
        self.0
    }

    fn rank_of(&self) -> (r: i32) {
        self.0
    }
}

/// Ranks never increase along `s`.
pub open spec fn ranks_desc<T: Ranked>(s: Seq<T>) -> bool {
    forall|i: int, j: int| 0 <= i <= j < s.len() ==> (#[trigger] s[i]).rank() >= (#[trigger] s[j]).rank()
}

/// The first position at or after `i` whose rank is below `r`, or the length.
pub open spec fn insertion_point<T: Ranked>(s: Seq<T>, r: i32, i: int) -> int
    decreases s.len() - i,
{
    if i >= s.len() {
        s.len() as int
    } else if s[i].rank() < r {
        i
    } else {
        insertion_point(s, r, i + 1)
    }
}

/// `s` with `e` inserted after every element ranked at least as high, before the
/// first ranked lower: what pushing `e` and then stably sorting by descending rank
/// gives when `s` is already sorted.
pub open spec fn ranked_insert<T: Ranked>(s: Seq<T>, e: T) -> Seq<T> {
    s.insert(insertion_point(s, e.rank(), 0), e)
}

proof fn lemma_insertion_point<T: Ranked>(s: Seq<T>, r: i32, i: int)
    requires
        0 <= i <= s.len(),
    ensures
        i <= insertion_point(s, r, i) <= s.len(),
        forall|j: int| i <= j < insertion_point(s, r, i) ==> (#[trigger] s[j]).rank() >= r,
        insertion_point(s, r, i) < s.len() ==> s[insertion_point(s, r, i)].rank() < r,
    decreases s.len() - i,
{
    if i < s.len() && s[i].rank() >= r {
        lemma_insertion_point(s, r, i + 1);
    }
}

/// Where ranked insertion puts `e`: after every element ranked at least as high and
/// before the first ranked lower; the others keep their order.
pub proof fn law_ranked_insert_position<T: Ranked>(s: Seq<T>, e: T)
    ensures
        ({
            let k = insertion_point(s, e.rank(), 0);
            &&& 0 <= k <= s.len()
            &&& ranked_insert(s, e).len() == s.len() + 1
            &&& ranked_insert(s, e)[k] == e
            &&& forall|j: int| 0 <= j < k ==> ranked_insert(s, e)[j] == s[j] && (#[trigger] s[j]).rank() >= e.rank()
            &&& forall|j: int| k <= j < s.len() ==> #[trigger] ranked_insert(s, e)[j + 1] == s[j]
            &&& k < s.len() ==> s[k].rank() < e.rank()
        }),
{
    lemma_insertion_point(s, e.rank(), 0);
}

/// Ranked insertion keeps a list in descending order.
pub proof fn law_ranked_insert_sorted<T: Ranked>(s: Seq<T>, e: T)
    requires
        ranks_desc(s),
    ensures
        ranks_desc(ranked_insert(s, e)),
{
    let k = insertion_point(s, e.rank(), 0);
    lemma_insertion_point(s, e.rank(), 0);
    let t = ranked_insert(s, e);
    assert forall|i: int, j: int| 0 <= i <= j < t.len() implies (#[trigger] t[i]).rank() >= (#[trigger] t[j]).rank() by {
        let si = if i < k { i } else { i - 1 };
        let sj = if j < k { j } else { j - 1 };
        if i == k && j > k {
            assert(t[j] == s[sj]);
            assert(s[k].rank() < e.rank());
            assert(s[k].rank() >= s[sj].rank());
        } else if j == k && i < k {
            assert(t[i] == s[si]);
        } else if i != k && j != k {
            assert(t[i] == s[si] && t[j] == s[sj]);
        }
    }
}

/// Insert `e` into `v` after every element ranked at least as high.
pub fn insert_ranked<T: Ranked>(v: &mut Vec<T>, e: T)
    ensures
        final(v)@ == ranked_insert(old(v)@, e),
{
    let r = e.rank_of();
    let mut i: usize = 0;
    while i < v.len()
        invariant
            0 <= i <= v@.len(),
            r == e.rank(),
            insertion_point(v@, r, 0) == insertion_point(v@, r, i as int),
        ensures
            insertion_point(v@, r, 0) == i as int,
        decreases v@.len() - i,
    {
        if v[i].rank_of() < r {
            break;
        }
        i = i + 1;
    }
    v.insert(i, e);
}

// ── Transform entries ───────────────────────────────────────────────────────

/// A transform resolved for render-time dispatch.
#[derive(Debug, Clone)]
pub struct TransformEntry {
    pub plugin_id: PluginId,
    /// The plugin export to call at render time.
    pub transform_fn: String,
    pub op: TransformOp,
    /// Resolved priority (higher is called first).
    pub priority: i32,
    /// The route pattern, set only for route transforms.
    pub route_pattern: Option<String>,
}

impl Ranked for TransformEntry {
    open spec fn rank(&self) -> i32 {
        self.priority
    }

    fn rank_of(&self) -> (r: i32) {
        self.priority
    }
}

impl Ranked for (RoutePattern, TransformEntry) {
    open spec fn rank(&self) -> i32 {
        self.1.priority
    }

    fn rank_of(&self) -> (r: i32) {
        self.1.priority
    }
}

impl Ranked for (Selector, NodeSelector, TransformEntry) {
    open spec fn rank(&self) -> i32 {
        self.2.priority
    }

    fn rank_of(&self) -> (r: i32) {
        self.2.priority
    }
}

/// A copy of a transform operation.
pub fn copy_op(op: &TransformOp) -> (r: TransformOp)
    ensures
        r == *op,
{
    match op {
        TransformOp::InjectBefore => TransformOp::InjectBefore,
        TransformOp::InjectAfter => TransformOp::InjectAfter,
        TransformOp::Wrap => TransformOp::Wrap,
        TransformOp::RouteReplace => TransformOp::RouteReplace,
        TransformOp::Replace => TransformOp::Replace,
        TransformOp::WrapNode => TransformOp::WrapNode,
        TransformOp::InsertBefore => TransformOp::InsertBefore,
        TransformOp::InsertAfter => TransformOp::InsertAfter,
        TransformOp::AddClass(c) => TransformOp::AddClass(c.clone()),
        TransformOp::SetAttr(k, v) => TransformOp::SetAttr(k.clone(), copy_attr(v)),
    }
}

/// A copy of an optional string.
pub fn copy_opt_str(s: &Option<String>) -> (r: Option<String>)
    ensures
        r == *s,
{
    match s {
        Some(x) => Some(x.clone()),
        None => None,
    }
}

/// A copy of a transform entry.
pub fn copy_entry(e: &TransformEntry) -> (r: TransformEntry)
    ensures
        r == *e,
{
    TransformEntry {
        plugin_id: copy_plugin_id(&e.plugin_id),
        transform_fn: e.transform_fn.clone(),
        op: copy_op(&e.op),
        priority: e.priority,
        route_pattern: copy_opt_str(&e.route_pattern),
    }
}

/// A copy of a list of transform entries.
pub fn copy_entries(v: &Vec<TransformEntry>) -> (r: Vec<TransformEntry>)
    ensures
        r@ == v@,
{
    let mut r: Vec<TransformEntry> = Vec::new();
    for i in 0..v.len()
        invariant
            r@ == v@.take(i as int),
    {
        r.push(copy_entry(&v[i]));
        assert(r@ =~= v@.take(i + 1));
    }
    assert(v@.take(v@.len() as int) =~= v@);
    r
}

/// A copy of a ranked list of plugin ids.
pub fn copy_ranked_ids(v: &Vec<(i32, PluginId)>) -> (r: Vec<(i32, PluginId)>)
    ensures
        r@ == v@,
{
    let mut r: Vec<(i32, PluginId)> = Vec::new();
    for i in 0..v.len()
        invariant
            r@ == v@.take(i as int),
    {
        r.push((v[i].0, copy_plugin_id(&v[i].1)));
        assert(r@ =~= v@.take(i + 1));
    }
    assert(v@.take(v@.len() as int) =~= v@);
    r
}

/// The list stored under `name`, or the empty list.
pub open spec fn list_under<T>(m: Map<Seq<char>, Vec<T>>, name: Seq<char>) -> Seq<T> {
    if m.contains_key(name) {
        m[name]@
    } else {
        Seq::empty()
    }
}

/// Insert `e` by rank into the list stored under `name` in `m`, creating the list.
fn insert_under<T: Ranked>(m: &mut KeyMap<String, Vec<T>>, name: String, e: T)
    requires
        old(m).wf(),
    ensures
        final(m).wf(),
        final(m)@ == old(m)@.insert(name@, final(m)@[name@]),
        final(m)@[name@]@ == ranked_insert(list_under(old(m)@, name@), e),
{
    let mut v = match m.remove(name.as_str()) {
        Some(v) => v,
        None => Vec::new(),
    };
    insert_ranked(&mut v, e);
    let ghost nv = v;
    m.insert(name, v);
    proof {
        assert(final(m)@ == old(m)@.remove(name@).insert(name@, nv));
        assert(final(m)@ =~= old(m)@.insert(name@, nv));
    }
}

// ── Slots and hooks ─────────────────────────────────────────────────────────

/// Slot name to the plugins contributing to it, in descending priority.
pub struct SlotRegistry(pub KeyMap<String, Vec<(i32, PluginId)>>);

/// Hook name to the plugins handling it, in descending priority.
pub struct HookRegistry(pub KeyMap<String, Vec<(i32, PluginId)>>);

// ── Transform registry ──────────────────────────────────────────────────────

/// Resolved transforms indexed by the kind of their selector.
#[derive(Debug)]
pub struct TransformRegistry {
    components: KeyMap<String, Vec<TransformEntry>>,
    slots: KeyMap<String, Vec<TransformEntry>>,
    data_slots: KeyMap<String, Vec<TransformEntry>>,
    routes: Vec<(RoutePattern, TransformEntry)>,
    /// `(outer selector, inner node selector, entry)`.
    within: Vec<(Selector, NodeSelector, TransformEntry)>,
}

/// The entries of `routes` whose pattern matches `path`, in order.
pub open spec fn route_entries(routes: Seq<(RoutePattern, TransformEntry)>, path: Seq<char>) -> Seq<TransformEntry>
    decreases routes.len(),
{
    if routes.len() == 0 {
        Seq::empty()
    } else {
        let prev = route_entries(routes.drop_last(), path);
        if route_matches(routes.last().0.0@, path) {
            prev.push(routes.last().1)
        } else {
            prev
        }
    }
}

/// The `(inner, entry)` pairs of `within` whose outer selector addresses the same
/// target as `outer`, in order.
pub open spec fn within_entries(
    within: Seq<(Selector, NodeSelector, TransformEntry)>,
    outer: Selector,
) -> Seq<(NodeSelector, TransformEntry)>
    decreases within.len(),
{
    if within.len() == 0 {
        Seq::empty()
    } else {
        let prev = within_entries(within.drop_last(), outer);
        if same_target(within.last().0, outer) {
            prev.push((within.last().1, within.last().2))
        } else {
            prev
        }
    }
}

impl TransformRegistry {
    #[verifier::type_invariant]
    spec fn inv(self) -> bool {
        &&& self.components.wf()
        &&& self.slots.wf()
        &&& self.data_slots.wf()
    }

    /// Component name to its transforms.
    pub closed spec fn components(&self) -> Map<Seq<char>, Vec<TransformEntry>> {
        self.components@
    }

    /// Slot name to its transforms.
    pub closed spec fn slots(&self) -> Map<Seq<char>, Vec<TransformEntry>> {
        self.slots@
    }

    /// `data-plugin-slot` value to its transforms.
    pub closed spec fn data_slots(&self) -> Map<Seq<char>, Vec<TransformEntry>> {
        self.data_slots@
    }

    /// Route transforms with their patterns.
    pub closed spec fn routes(&self) -> Seq<(RoutePattern, TransformEntry)> {
        self.routes@
    }

    /// Within-transforms.
    pub closed spec fn within(&self) -> Seq<(Selector, NodeSelector, TransformEntry)> {
        self.within@
    }

    /// An empty registry.
    pub fn new() -> (r: Self)
        ensures
            r.components() == Map::<Seq<char>, Vec<TransformEntry>>::empty(),
            r.slots() == Map::<Seq<char>, Vec<TransformEntry>>::empty(),
            r.data_slots() == Map::<Seq<char>, Vec<TransformEntry>>::empty(),
            r.routes() == Seq::<(RoutePattern, TransformEntry)>::empty(),
            r.within() == Seq::<(Selector, NodeSelector, TransformEntry)>::empty(),
    {
        TransformRegistry {
            components: KeyMap::new(),
            slots: KeyMap::new(),
            data_slots: KeyMap::new(),
            routes: Vec::new(),
            within: Vec::new(),
        }
    }

    /// Register a component transform, keeping descending priority.
    pub fn insert_component(&mut self, name: String, entry: TransformEntry)
        ensures
            final(self).components() == old(self).components().insert(name@, final(self).components()[name@]),
            final(self).components()[name@]@ == ranked_insert(list_under(old(self).components(), name@), entry),
            final(self).slots() == old(self).slots(),
            final(self).data_slots() == old(self).data_slots(),
            final(self).routes() == old(self).routes(),
            final(self).within() == old(self).within(),
    {
        proof {
            use_type_invariant(&*self);
        }
        let mut m = KeyMap::new();
        std::mem::swap(&mut m, &mut self.components);
        insert_under(&mut m, name, entry);
        self.components = m;
    }

    /// Register a slot transform, keeping descending priority.
    pub fn insert_slot(&mut self, name: String, entry: TransformEntry)
        ensures
            final(self).slots() == old(self).slots().insert(name@, final(self).slots()[name@]),
            final(self).slots()[name@]@ == ranked_insert(list_under(old(self).slots(), name@), entry),
            final(self).components() == old(self).components(),
            final(self).data_slots() == old(self).data_slots(),
            final(self).routes() == old(self).routes(),
            final(self).within() == old(self).within(),
    {
        proof {
            use_type_invariant(&*self);
        }
        let mut m = KeyMap::new();
        std::mem::swap(&mut m, &mut self.slots);
        insert_under(&mut m, name, entry);
        self.slots = m;
    }

    /// Register a `data-plugin-slot` transform, keeping descending priority.
    pub fn insert_data_slot(&mut self, name: String, entry: TransformEntry)
        ensures
            final(self).data_slots() == old(self).data_slots().insert(name@, final(self).data_slots()[name@]),
            final(self).data_slots()[name@]@ == ranked_insert(list_under(old(self).data_slots(), name@), entry),
            final(self).components() == old(self).components(),
            final(self).slots() == old(self).slots(),
            final(self).routes() == old(self).routes(),
            final(self).within() == old(self).within(),
    {
        proof {
            use_type_invariant(&*self);
        }
        let mut m = KeyMap::new();
        std::mem::swap(&mut m, &mut self.data_slots);
        insert_under(&mut m, name, entry);
        self.data_slots = m;
    }

    /// Register a route transform, keeping descending priority; the entry records the
    /// pattern.
    pub fn insert_route(&mut self, pattern: RoutePattern, entry: TransformEntry)
        ensures
            final(self).routes() == ranked_insert(
                old(self).routes(),
                (pattern, TransformEntry { route_pattern: Some(pattern.0), ..entry }),
            ),
            final(self).components() == old(self).components(),
            final(self).slots() == old(self).slots(),
            final(self).data_slots() == old(self).data_slots(),
            final(self).within() == old(self).within(),
    {
        proof {
            use_type_invariant(&*self);
        }
        let mut entry = entry;
        entry.route_pattern = Some(pattern.0.clone());
        let mut v = Vec::new();
        std::mem::swap(&mut v, &mut self.routes);
        insert_ranked(&mut v, (pattern, entry));
        self.routes = v;
    }

    /// Register a within-transform, keeping descending priority.
    pub fn insert_within(&mut self, outer: Selector, inner: NodeSelector, entry: TransformEntry)
        ensures
            final(self).within() == ranked_insert(old(self).within(), (outer, inner, entry)),
            final(self).components() == old(self).components(),
            final(self).slots() == old(self).slots(),
            final(self).data_slots() == old(self).data_slots(),
            final(self).routes() == old(self).routes(),
    {
        proof {
            use_type_invariant(&*self);
        }
        let mut v = Vec::new();
        std::mem::swap(&mut v, &mut self.within);
        insert_ranked(&mut v, (outer, inner, entry));
        self.within = v;
    }

    /// The transforms of component `name`, in descending priority.
    pub fn for_component(&self, name: &str) -> (r: Vec<TransformEntry>)
        ensures
            r@ == list_under(self.components(), name@),
    {
        proof {
            use_type_invariant(self);
        }
        match self.components.get(name) {
            Some(v) => copy_entries(v),
            None => Vec::new(),
        }
    }

    /// The transforms of slot `name`, in descending priority.
    pub fn for_slot(&self, name: &str) -> (r: Vec<TransformEntry>)
        ensures
            r@ == list_under(self.slots(), name@),
    {
        proof {
            use_type_invariant(self);
        }
        match self.slots.get(name) {
            Some(v) => copy_entries(v),
            None => Vec::new(),
        }
    }

    /// The transforms of `data-plugin-slot` value `name`, in descending priority.
    pub fn for_data_slot(&self, name: &str) -> (r: Vec<TransformEntry>)
        ensures
            r@ == list_under(self.data_slots(), name@),
    {
        proof {
            use_type_invariant(self);
        }
        match self.data_slots.get(name) {
            Some(v) => copy_entries(v),
            None => Vec::new(),
        }
    }

    /// The route transforms whose pattern matches `path`, in descending priority.
    pub fn for_route(&self, path: &str) -> (r: Vec<TransformEntry>)
        ensures
            r@ == route_entries(self.routes(), path@),
    {
        let mut r: Vec<TransformEntry> = Vec::new();
        for i in 0..self.routes.len()
            invariant
                r@ == route_entries(self.routes@.take(i as int), path@),
        {
            proof {
                assert(self.routes@.take(i + 1).drop_last() =~= self.routes@.take(i as int));
            }
            if self.routes[i].0.matches(path) {
                r.push(copy_entry(&self.routes[i].1));
            }
        }
        proof {
            assert(self.routes@.take(self.routes@.len() as int) =~= self.routes@);
        }
        r
    }

    /// The `(inner selector, entry)` pairs of the within-transforms whose outer
    /// selector addresses the same target as `outer`, in descending priority.
    pub fn within_for_outer(&self, outer: &Selector) -> (r: Vec<(NodeSelector, TransformEntry)>)
        ensures
            r@ == within_entries(self.within(), *outer),
    {
        let mut r: Vec<(NodeSelector, TransformEntry)> = Vec::new();
        for i in 0..self.within.len()
            invariant
                r@ == within_entries(self.within@.take(i as int), *outer),
        {
            proof {
                assert(self.within@.take(i + 1).drop_last() =~= self.within@.take(i as int));
            }
            let w = &self.within[i];
            if selectors_equal(&w.0, outer) {
                r.push((copy_node_selector(&w.1), copy_entry(&w.2)));
            }
        }
        proof {
            assert(self.within@.take(self.within@.len() as int) =~= self.within@);
        }
        r
    }

    /// The component names with at least one transform, once each.
    pub fn all_component_names(&self) -> (r: Vec<String>)
        ensures
            forall|i: int, j: int| 0 <= i < j < r@.len() ==> r@[i]@ != r@[j]@,
            forall|k: Seq<char>| (exists|i: int| 0 <= i < r@.len() && #[trigger] r@[i]@ == k) <==> self.components().contains_key(k),
    {
        proof {
            use_type_invariant(self);
        }
        self.components.key_list()
    }

    /// The slot names with at least one transform, once each.
    pub fn all_slot_names(&self) -> (r: Vec<String>)
        ensures
            forall|i: int, j: int| 0 <= i < j < r@.len() ==> r@[i]@ != r@[j]@,
            forall|k: Seq<char>| (exists|i: int| 0 <= i < r@.len() && #[trigger] r@[i]@ == k) <==> self.slots().contains_key(k),
    {
        proof {
            use_type_invariant(self);
        }
        self.slots.key_list()
    }
}

impl Default for TransformRegistry {
    fn default() -> (r: Self)
        ensures
            r.components() == Map::<Seq<char>, Vec<TransformEntry>>::empty(),
            r.slots() == Map::<Seq<char>, Vec<TransformEntry>>::empty(),
            r.data_slots() == Map::<Seq<char>, Vec<TransformEntry>>::empty(),
            r.routes() == Seq::<(RoutePattern, TransformEntry)>::empty(),
            r.within() == Seq::<(Selector, NodeSelector, TransformEntry)>::empty(),
    {
        TransformRegistry::new()
    }
}

// ── API and page routes ─────────────────────────────────────────────────────

/// A plugin-declared API route: the plugin and the export that handles it. The host
/// keeps each plugin's instance pool by plugin id.
#[derive(Debug, Clone)]
pub struct ApiRouteEntry {
    pub plugin_id: PluginId,
    pub handler_fn: String,
}

/// `(method, path)` to the route entry that handles it. No key occurs twice.
pub struct ApiRegistry(pub Vec<((String, String), ApiRouteEntry)>);

/// A plugin-declared page route.
#[derive(Debug, Clone)]
pub struct PageRouteEntry {
    pub plugin_id: PluginId,
    pub handler_fn: String,
    pub bypass_layout: bool,
    pub title: Option<String>,
    /// The declared pattern (`:param` syntax), for extracting parameters.
    pub pattern: RoutePattern,
}

/// A copy of a page route entry.
pub fn copy_page_entry(e: &PageRouteEntry) -> (r: PageRouteEntry)
    ensures
        r == *e,
{
    PageRouteEntry {
        plugin_id: copy_plugin_id(&e.plugin_id),
        handler_fn: e.handler_fn.clone(),
        bypass_layout: e.bypass_layout,
        title: copy_opt_str(&e.title),
        pattern: RoutePattern(e.pattern.0.clone()),
    }
}

/// Page route patterns with their entries; lookups take the first that matches.
pub struct PageRouteRegistry(pub Vec<(RoutePattern, PageRouteEntry)>);

/// Position `i` holds the first pattern of `s` that `path` matches.
pub open spec fn first_page_match(s: Seq<(RoutePattern, PageRouteEntry)>, path: Seq<char>, i: int) -> bool {
    &&& 0 <= i < s.len()
    &&& route_matches(s[i].0.0@, path)
    &&& forall|j: int| 0 <= j < i ==> !route_matches((#[trigger] s[j]).0.0@, path)
}

impl PageRouteRegistry {
    /// The entry of the first pattern that `relative_path` matches, with the
    /// parameters it binds.
    pub fn find(&self, relative_path: &str) -> (r: Option<(PageRouteEntry, KeyMap<String, String>)>)
        ensures
            match r {
                Some((e, params)) => exists|i: int|
                    first_page_match(self.0@, relative_path@, i) && e == self.0@[i].1 && params.wf()
                        && route_params(self.0@[i].0.0@, relative_path@) == Some(string_map_view(params)),
                None => forall|i: int|
                    0 <= i < self.0@.len() ==> !route_matches((#[trigger] self.0@[i]).0.0@, relative_path@),
            },
    {
        for i in 0..self.0.len()
            invariant
                forall|j: int| 0 <= j < i ==> !route_matches((#[trigger] self.0@[j]).0.0@, relative_path@),
        {
            match self.0[i].0.extract_params(relative_path) {
                Some(params) => {
                    proof {
                        assert(first_page_match(self.0@, relative_path@, i as int));
                    }
                    return Some((copy_page_entry(&self.0[i].1), params));
                },
                None => {},
            }
        }
        None
    }
}

// ── Event bus ───────────────────────────────────────────────────────────────

/// Event name to its subscribers, in descending priority.
pub struct EventBus {
    pub subscribers: KeyMap<String, Vec<(i32, PluginId)>>,
}

impl EventBus {
    /// A bus with no subscribers.
    pub fn new() -> (b: Self)
        ensures
            b.subscribers.wf(),
            b.subscribers@ == Map::<Seq<char>, Vec<(i32, PluginId)>>::empty(),
    {
        EventBus { subscribers: KeyMap::new() }
    }
}


// ── Laws on within-transforms ───────────────────────────────────────────────

/// Every pair that the within-transforms give back for `outer` was registered
/// under an outer selector addressing the same target as `outer`, and no more
/// pairs come back than were registered.
pub proof fn law_within_entries_by_target(
    within: Seq<(Selector, NodeSelector, TransformEntry)>,
    outer: Selector,
)
    ensures
        within_entries(within, outer).len() <= within.len(),
        forall|k: int|
            0 <= k < within_entries(within, outer).len() ==> exists|i: int|
                #![trigger within[i]]
                0 <= i < within.len() && same_target(within[i].0, outer) && (within[i].1, within[i].2)
                    == #[trigger] within_entries(within, outer)[k],
    decreases within.len(),
{
    if within.len() > 0 {
        let prev = within.drop_last();
        law_within_entries_by_target(prev, outer);
        let rp = within_entries(prev, outer);
        assert forall|k: int| 0 <= k < within_entries(within, outer).len() implies exists|i: int|
            #![trigger within[i]]
            0 <= i < within.len() && same_target(within[i].0, outer) && (within[i].1, within[i].2)
                == #[trigger] within_entries(within, outer)[k] by {
            if k < rp.len() {
                let i = choose|i: int|
                    #![trigger prev[i]]
                    0 <= i < prev.len() && same_target(prev[i].0, outer) && (prev[i].1, prev[i].2)
                        == rp[k];
                assert(prev[i] == within[i]);
            } else {
                let i = within.len() - 1;
                assert(within[i] == within.last());
            }
        }
    } else {
        assert(within_entries(within, outer).len() == 0);
    }
}

/// Looking up within-transforms by a component selector gives back only pairs
/// registered under a component selector of the same name: nothing registered
/// under a component of another name, nor under a slot, data-plugin-slot or
/// route, comes back. Where nothing is registered under that component, nothing
/// comes back.
pub proof fn law_within_component_by_name(
    within: Seq<(Selector, NodeSelector, TransformEntry)>,
    name: String,
)
    ensures
        forall|k: int|
            0 <= k < within_entries(within, Selector::Component(name)).len() ==> exists|i: int|
                #![trigger within[i]]
                0 <= i < within.len() && selector_key(within[i].0) == Some((0int, name@))
                    && (within[i].1, within[i].2) == #[trigger] within_entries(
                    within,
                    Selector::Component(name),
                )[k],
        (forall|i: int| 0 <= i < within.len() ==> selector_key(#[trigger] within[i].0) != Some((0int, name@)))
            ==> within_entries(within, Selector::Component(name)).len() == 0,
{
    let outer = Selector::Component(name);
    law_within_entries_by_target(within, outer);
    assert forall|k: int| 0 <= k < within_entries(within, outer).len() implies exists|i: int|
        #![trigger within[i]]
        0 <= i < within.len() && selector_key(within[i].0) == Some((0int, name@)) && (within[i].1, within[i].2)
            == #[trigger] within_entries(within, outer)[k] by {
        let i = choose|i: int|
            #![trigger within[i]]
            0 <= i < within.len() && same_target(within[i].0, outer) && (within[i].1, within[i].2)
                == within_entries(within, outer)[k];
        assert(selector_key(within[i].0) == Some((0int, name@)));
    }
    if within_entries(within, outer).len() > 0 {
        assert((within_entries(within, outer)[0].0, within_entries(within, outer)[0].1) == within_entries(within, outer)[0]);
    }
}

} // verus!
