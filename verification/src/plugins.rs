//! Loaded plugins and the registries built from them: who contributes to which slot,
//! hook, event, transform and route, in which order.

use vstd::prelude::*;

use crate::config::{resolved_priority, PluginInstallConfig};
use crate::keymap::{KeyMap, MapKey};
use crate::errors::PluginRuntimeError;
use crate::keymap::str_eq;
use crate::protocol::{
    copy_node_selector, copy_plugin_id, copy_selector, copy_strings, law_method_names_distinct,
    method_name, selector_key,
    ApiRouteDeclaration, HookRegistration, NodeSelector, OverrideMap, PageRouteDeclaration,
    PluginClientRequirement, PluginId, PluginManifest, PriorityHint, RoutePattern, Selector,
    SlotRegistration, TransformDeclaration,
};
use crate::registry::{
    copy_op, copy_opt_str, insert_ranked, insertion_point, law_ranked_insert_position, list_under,
    ranked_insert, ApiRegistry, ApiRouteEntry, EventBus, HookRegistry, PageRouteEntry,
    PageRouteRegistry, Ranked, SlotRegistry, TransformEntry, TransformRegistry,
};
use crate::trust::TrustTag;

verus! {

broadcast use vstd::seq_lib::lemma_seq_contains_after_push;

/// A loaded plugin, as the registries see it: its manifest, whether it is enabled,
/// its install configuration and its trust tag. The host keeps the plugin's instance
/// pool beside it.
#[derive(Debug)]
pub struct LoadedPlugin {
    pub manifest: PluginManifest,
    pub enabled: bool,
    pub config: PluginInstallConfig,
    pub trust_tag: TrustTag,
}

/// The priority that plugin `p` gives a contribution named `name` with hint `hint`.
pub open spec fn priority_of(p: LoadedPlugin, name: Seq<char>, hint: PriorityHint) -> i32 {
    resolved_priority(p.config.overrides@, p.config.base_priority, name, hint)
}

/// Every plugin's override table is well formed.
pub open spec fn configs_wf(ps: Seq<(PluginId, LoadedPlugin)>) -> bool {
    forall|i: int| 0 <= i < ps.len() ==> (#[trigger] ps[i]).1.config.overrides.wf()
}

// ── Named, ranked contributions ─────────────────────────────────────────────

/// The ranked list that inserting, in order, the contributions of `cs` named `name`
/// builds.
pub open spec fn ranked_group<T: Ranked>(cs: Seq<(Seq<char>, T)>, name: Seq<char>) -> Seq<T>
    decreases cs.len(),
{
    if cs.len() == 0 {
        Seq::empty()
    } else {
        let prev = ranked_group(cs.drop_last(), name);
        if cs.last().0 == name {
            ranked_insert(prev, cs.last().1)
        } else {
            prev
        }
    }
}

/// Some contribution of `cs` is named `name`.
pub open spec fn named_in<T>(cs: Seq<(Seq<char>, T)>, name: Seq<char>) -> bool {
    exists|i: int| 0 <= i < cs.len() && (#[trigger] cs[i]).0 == name
}

/// `m` holds, under each name that `cs` uses and under no other, the ranked list of
/// its contributions.
pub open spec fn groups_of<T: Ranked>(m: Map<Seq<char>, Vec<T>>, cs: Seq<(Seq<char>, T)>) -> bool {
    &&& forall|n: Seq<char>| #[trigger] m.contains_key(n) <==> named_in(cs, n)
    &&& forall|n: Seq<char>| #[trigger] m.contains_key(n) ==> m[n]@ == ranked_group(cs, n)
}

proof fn lemma_group_absent<T: Ranked>(cs: Seq<(Seq<char>, T)>, name: Seq<char>)
    requires
        !named_in(cs, name),
    ensures
        ranked_group(cs, name) == Seq::<T>::empty(),
    decreases cs.len(),
{
    if cs.len() > 0 {
        assert(!named_in(cs.drop_last(), name)) by {
            if named_in(cs.drop_last(), name) {
                let i = choose|i: int| 0 <= i < cs.drop_last().len() && (#[trigger] cs.drop_last()[i]).0 == name;
                assert(cs[i] == cs.drop_last()[i]);
            }
        }
        assert(cs[cs.len() - 1].0 != name);
        lemma_group_absent(cs.drop_last(), name);
    }
}

/// Adding the contribution `(name, e)` to a table of groups by ranked insertion under
/// `name` gives the groups of the longer sequence.
proof fn lemma_group_push<T: Ranked>(
    old_m: Map<Seq<char>, Vec<T>>,
    new_m: Map<Seq<char>, Vec<T>>,
    cs: Seq<(Seq<char>, T)>,
    name: Seq<char>,
    e: T,
)
    requires
        groups_of(old_m, cs),
        new_m == old_m.insert(name, new_m[name]),
        new_m[name]@ == ranked_insert(list_under(old_m, name), e),
    ensures
        groups_of(new_m, cs.push((name, e))),
{
    let cs2 = cs.push((name, e));
    assert(cs2.drop_last() =~= cs);
    assert(cs2.last() == (name, e));
    if !old_m.contains_key(name) {
        lemma_group_absent(cs, name);
    }
    assert forall|n: Seq<char>| #[trigger] new_m.contains_key(n) <==> named_in(cs2, n) by {
        if n == name {
            assert(cs2[cs.len() as int].0 == name);
        } else {
            if named_in(cs2, n) {
                let i = choose|i: int| 0 <= i < cs2.len() && (#[trigger] cs2[i]).0 == n;
                assert(cs[i] == cs2[i]);
            }
            if named_in(cs, n) {
                let i = choose|i: int| 0 <= i < cs.len() && (#[trigger] cs[i]).0 == n;
                assert(cs2[i] == cs[i]);
            }
        }
    }
}

/// `(prefix + s.take(j)).push(s[j]) == prefix + s.take(j + 1)`.
proof fn lemma_take_step<A>(prefix: Seq<A>, s: Seq<A>, j: int)
    requires
        0 <= j < s.len(),
    ensures
        (prefix + s.take(j)).push(s[j]) == prefix + s.take(j + 1),
{
    assert((prefix + s.take(j)).push(s[j]) =~= prefix + s.take(j + 1));
}

/// Add `(name, e)` to a table of ranked groups.
fn add_contribution<T: Ranked>(
    m: &mut KeyMap<String, Vec<T>>,
    name: String,
    e: T,
    Ghost(cs): Ghost<Seq<(Seq<char>, T)>>,
)
    requires
        old(m).wf(),
        groups_of(old(m)@, cs),
    ensures
        final(m).wf(),
        groups_of(final(m)@, cs.push((name@, e))),
{
    let ghost name_v = name@;
    let ghost old_m = m@;
    let mut v = match m.remove(name.as_str()) {
        Some(v) => v,
        None => Vec::new(),
    };
    insert_ranked(&mut v, e);
    let ghost nv = v;
    m.insert(name, v);
    proof {
        assert(m@ =~= old_m.insert(name_v, nv));
        lemma_group_push(old_m, m@, cs, name_v, e);
    }
}

// ── Slots, hooks, events ────────────────────────────────────────────────────

/// The slot contributions of plugin `p`, in declaration order.
pub open spec fn plugin_slots(p: (PluginId, LoadedPlugin)) -> Seq<(Seq<char>, (i32, PluginId))> {
    p.1.manifest.slots@.map_values(
        |r: SlotRegistration| (r.name@, (priority_of(p.1, r.name@, r.priority_hint), p.0)),
    )
}

/// The slot contributions of all plugins, in order.
pub open spec fn slot_contributions(ps: Seq<(PluginId, LoadedPlugin)>) -> Seq<(Seq<char>, (i32, PluginId))>
    decreases ps.len(),
{
    if ps.len() == 0 {
        Seq::empty()
    } else {
        slot_contributions(ps.drop_last()) + plugin_slots(ps.last())
    }
}

/// The hook contributions of plugin `p`, in declaration order.
pub open spec fn plugin_hooks(p: (PluginId, LoadedPlugin)) -> Seq<(Seq<char>, (i32, PluginId))> {
    p.1.manifest.hooks@.map_values(
        |r: HookRegistration| (r.hook_name@, (priority_of(p.1, r.hook_name@, r.priority_hint), p.0)),
    )
}

/// The hook contributions of all plugins, in order.
pub open spec fn hook_contributions(ps: Seq<(PluginId, LoadedPlugin)>) -> Seq<(Seq<char>, (i32, PluginId))>
    decreases ps.len(),
{
    if ps.len() == 0 {
        Seq::empty()
    } else {
        hook_contributions(ps.drop_last()) + plugin_hooks(ps.last())
    }
}

/// The name under which event subscriptions take their priority.
pub open spec fn event_priority_name() -> Seq<char> {
    "__event__"@
}

/// The event subscriptions of plugin `p`, in declaration order.
pub open spec fn plugin_events(p: (PluginId, LoadedPlugin)) -> Seq<(Seq<char>, (i32, PluginId))> {
    p.1.manifest.event_subscriptions@.map_values(
        |e: String| (e@, (priority_of(p.1, event_priority_name(), PriorityHint::Normal), p.0)),
    )
}

/// The event subscriptions of all plugins, in order.
pub open spec fn event_contributions(ps: Seq<(PluginId, LoadedPlugin)>) -> Seq<(Seq<char>, (i32, PluginId))>
    decreases ps.len(),
{
    if ps.len() == 0 {
        Seq::empty()
    } else {
        event_contributions(ps.drop_last()) + plugin_events(ps.last())
    }
}

/// Slot name to contributing plugins, each list in descending priority, ties in
/// plugin order.
pub fn collect_slots(plugins: &[(PluginId, LoadedPlugin)]) -> (r: SlotRegistry)
    requires
        configs_wf(plugins@),
    ensures
        r.0.wf(),
        groups_of(r.0@, slot_contributions(plugins@)),
{
    let mut m: KeyMap<String, Vec<(i32, PluginId)>> = KeyMap::new();
    for i in 0..plugins.len()
        invariant
            configs_wf(plugins@),
            m.wf(),
            groups_of(m@, slot_contributions(plugins@.take(i as int))),
    {
        let (id, loaded) = (&plugins[i].0, &plugins[i].1);
        let ghost before = slot_contributions(plugins@.take(i as int));
        let ghost mine = plugin_slots(plugins@[i as int]);
        proof {
            assert(loaded.config.overrides.wf());
            assert(before + mine.take(0) =~= before);
        }
        for j in 0..loaded.manifest.slots.len()
            invariant
                m.wf(),
                loaded.config.overrides.wf(),
                *loaded == plugins@[i as int].1,
                *id == plugins@[i as int].0,
                mine == plugin_slots(plugins@[i as int]),
                groups_of(m@, before + mine.take(j as int)),
        {
            let reg = &loaded.manifest.slots[j];
            let priority = loaded.config.resolve(reg.name.as_str(), &reg.priority_hint);
            proof {
                lemma_take_step(before, mine, j as int);
            }
            add_contribution(&mut m, reg.name.clone(), (priority, copy_plugin_id(id)), Ghost(before + mine.take(j as int)));
        }
        proof {
            assert(mine.take(mine.len() as int) =~= mine);
            assert(plugins@.take(i + 1).drop_last() =~= plugins@.take(i as int));
        }
    }
    proof {
        assert(plugins@.take(plugins@.len() as int) =~= plugins@);
    }
    SlotRegistry(m)
}

/// Hook name to handling plugins, each list in descending priority, ties in plugin
/// order.
pub fn collect_hooks(plugins: &[(PluginId, LoadedPlugin)]) -> (r: HookRegistry)
    requires
        configs_wf(plugins@),
    ensures
        r.0.wf(),
        groups_of(r.0@, hook_contributions(plugins@)),
{
    let mut m: KeyMap<String, Vec<(i32, PluginId)>> = KeyMap::new();
    for i in 0..plugins.len()
        invariant
            configs_wf(plugins@),
            m.wf(),
            groups_of(m@, hook_contributions(plugins@.take(i as int))),
    {
        let (id, loaded) = (&plugins[i].0, &plugins[i].1);
        let ghost before = hook_contributions(plugins@.take(i as int));
        let ghost mine = plugin_hooks(plugins@[i as int]);
        proof {
            assert(loaded.config.overrides.wf());
            assert(before + mine.take(0) =~= before);
        }
        for j in 0..loaded.manifest.hooks.len()
            invariant
                m.wf(),
                loaded.config.overrides.wf(),
                *loaded == plugins@[i as int].1,
                *id == plugins@[i as int].0,
                mine == plugin_hooks(plugins@[i as int]),
                groups_of(m@, before + mine.take(j as int)),
        {
            let reg = &loaded.manifest.hooks[j];
            let priority = loaded.config.resolve(reg.hook_name.as_str(), &reg.priority_hint);
            proof {
                lemma_take_step(before, mine, j as int);
            }
            add_contribution(&mut m, reg.hook_name.clone(), (priority, copy_plugin_id(id)), Ghost(before + mine.take(j as int)));
        }
        proof {
            assert(mine.take(mine.len() as int) =~= mine);
            assert(plugins@.take(i + 1).drop_last() =~= plugins@.take(i as int));
        }
    }
    proof {
        assert(plugins@.take(plugins@.len() as int) =~= plugins@);
    }
    HookRegistry(m)
}

impl EventBus {
    /// Event name to subscribing plugins, each list in descending priority (the
    /// plugin's priority for `"__event__"`), ties in plugin order.
    pub fn build_from_plugins(plugins: &[(PluginId, LoadedPlugin)]) -> (r: Self)
        requires
            configs_wf(plugins@),
        ensures
            r.subscribers.wf(),
            groups_of(r.subscribers@, event_contributions(plugins@)),
    {
        let mut m: KeyMap<String, Vec<(i32, PluginId)>> = KeyMap::new();
        for i in 0..plugins.len()
            invariant
                configs_wf(plugins@),
                m.wf(),
                groups_of(m@, event_contributions(plugins@.take(i as int))),
        {
            let (id, loaded) = (&plugins[i].0, &plugins[i].1);
            let ghost before = event_contributions(plugins@.take(i as int));
            let ghost mine = plugin_events(plugins@[i as int]);
            proof {
                assert(loaded.config.overrides.wf());
                assert(before + mine.take(0) =~= before);
                reveal_strlit("__event__");
            }
            let priority = loaded.config.resolve("__event__", &PriorityHint::Normal);
            for j in 0..loaded.manifest.event_subscriptions.len()
                invariant
                    m.wf(),
                    *loaded == plugins@[i as int].1,
                    *id == plugins@[i as int].0,
                    priority == priority_of(plugins@[i as int].1, event_priority_name(), PriorityHint::Normal),
                    mine == plugin_events(plugins@[i as int]),
                    groups_of(m@, before + mine.take(j as int)),
            {
                let name = &loaded.manifest.event_subscriptions[j];
                proof {
                    lemma_take_step(before, mine, j as int);
                }
                add_contribution(&mut m, name.clone(), (priority, copy_plugin_id(id)), Ghost(before + mine.take(j as int)));
            }
            proof {
                assert(mine.take(mine.len() as int) =~= mine);
                assert(plugins@.take(i + 1).drop_last() =~= plugins@.take(i as int));
            }
        }
        proof {
            assert(plugins@.take(plugins@.len() as int) =~= plugins@);
        }
        EventBus { subscribers: m }
    }
}

// ── Transforms ──────────────────────────────────────────────────────────────

/// The entry that plugin `p` registers for its transform declaration `t`.
pub open spec fn entry_for(p: (PluginId, LoadedPlugin), t: TransformDeclaration) -> TransformEntry {
    TransformEntry {
        plugin_id: p.0,
        transform_fn: t.transform_fn,
        op: t.op,
        priority: priority_of(p.1, t.transform_fn@, t.priority_hint),
        route_pattern: None,
    }
}

/// The transforms of plugin `p` with their selectors, in declaration order.
pub open spec fn plugin_transforms(p: (PluginId, LoadedPlugin)) -> Seq<(Selector, TransformEntry)> {
    p.1.manifest.transforms@.map_values(|t: TransformDeclaration| (t.selector, entry_for(p, t)))
}

/// The transforms of all plugins, in order.
pub open spec fn declared_transforms(ps: Seq<(PluginId, LoadedPlugin)>) -> Seq<(Selector, TransformEntry)>
    decreases ps.len(),
{
    if ps.len() == 0 {
        Seq::empty()
    } else {
        declared_transforms(ps.drop_last()) + plugin_transforms(ps.last())
    }
}

/// The transforms of `ds` whose selector directly addresses a target of kind `kind`
/// (component, slot, data-plugin-slot), named by that target.
pub open spec fn keyed(ds: Seq<(Selector, TransformEntry)>, kind: int) -> Seq<(Seq<char>, TransformEntry)>
    decreases ds.len(),
{
    if ds.len() == 0 {
        Seq::empty()
    } else {
        let prev = keyed(ds.drop_last(), kind);
        match selector_key(ds.last().0) {
            Some((k, name)) => if k == kind && kind != 3 {
                prev.push((name, ds.last().1))
            } else {
                prev
            },
            None => prev,
        }
    }
}

/// The route transforms of `ds`, ranked, each entry recording its pattern.
pub open spec fn route_group(ds: Seq<(Selector, TransformEntry)>) -> Seq<(RoutePattern, TransformEntry)>
    decreases ds.len(),
{
    if ds.len() == 0 {
        Seq::empty()
    } else {
        let prev = route_group(ds.drop_last());
        match ds.last().0 {
            Selector::Route(p) => ranked_insert(
                prev,
                (p, TransformEntry { route_pattern: Some(p.0), ..ds.last().1 }),
            ),
            _ => prev,
        }
    }
}

/// The route patterns of `ds`, in order.
pub open spec fn route_pattern_list(ds: Seq<(Selector, TransformEntry)>) -> Seq<RoutePattern>
    decreases ds.len(),
{
    if ds.len() == 0 {
        Seq::empty()
    } else {
        let prev = route_pattern_list(ds.drop_last());
        match ds.last().0 {
            Selector::Route(p) => prev.push(p),
            _ => prev,
        }
    }
}

/// The within-transforms of `ds`, ranked.
pub open spec fn within_group(ds: Seq<(Selector, TransformEntry)>) -> Seq<(Selector, NodeSelector, TransformEntry)>
    decreases ds.len(),
{
    if ds.len() == 0 {
        Seq::empty()
    } else {
        let prev = within_group(ds.drop_last());
        match ds.last().0 {
            Selector::Within { outer, inner } => ranked_insert(prev, (*outer, inner, ds.last().1)),
            _ => prev,
        }
    }
}

/// Two lists of within-transforms agree in everything but the outer selectors, which
/// address the same targets.
pub open spec fn within_like(
    a: Seq<(Selector, NodeSelector, TransformEntry)>,
    b: Seq<(Selector, NodeSelector, TransformEntry)>,
) -> bool {
    &&& a.len() == b.len()
    &&& forall|k: int|
        0 <= k < a.len() ==> selector_key((#[trigger] a[k]).0) == selector_key(b[k].0) && a[k].1 == b[k].1
            && a[k].2 == b[k].2
}

proof fn lemma_insertion_point_like(
    a: Seq<(Selector, NodeSelector, TransformEntry)>,
    b: Seq<(Selector, NodeSelector, TransformEntry)>,
    r: i32,
    i: int,
)
    requires
        within_like(a, b),
        0 <= i <= a.len(),
    ensures
        insertion_point(a, r, i) == insertion_point(b, r, i),
    decreases a.len() - i,
{
    if i < a.len() {
        assert(a[i].2 == b[i].2);
        lemma_insertion_point_like(a, b, r, i + 1);
    }
}

proof fn lemma_within_like_insert(
    a: Seq<(Selector, NodeSelector, TransformEntry)>,
    b: Seq<(Selector, NodeSelector, TransformEntry)>,
    x: (Selector, NodeSelector, TransformEntry),
    y: (Selector, NodeSelector, TransformEntry),
)
    requires
        within_like(a, b),
        selector_key(x.0) == selector_key(y.0),
        x.1 == y.1,
        x.2 == y.2,
    ensures
        within_like(ranked_insert(a, x), ranked_insert(b, y)),
{
    lemma_insertion_point_like(a, b, x.2.priority, 0);
    law_ranked_insert_position(a, x);
    law_ranked_insert_position(b, y);
    let k = insertion_point(a, x.2.priority, 0);
    let ra = ranked_insert(a, x);
    let rb = ranked_insert(b, y);
    assert forall|j: int| 0 <= j < ra.len() implies selector_key((#[trigger] ra[j]).0) == selector_key(rb[j].0)
        && ra[j].1 == rb[j].1 && ra[j].2 == rb[j].2 by {
        if j < k {
            assert(ra[j] == a[j] && rb[j] == b[j]);
        } else if j > k {
            assert(ra[(j - 1) + 1] == a[j - 1] && rb[(j - 1) + 1] == b[j - 1]);
        }
    }
}

proof fn lemma_named_push<T>(cs: Seq<(Seq<char>, T)>, y: (Seq<char>, T), n: Seq<char>)
    ensures
        named_in(cs.push(y), n) <==> named_in(cs, n) || y.0 == n,
{
    let c2 = cs.push(y);
    if named_in(c2, n) {
        let i = choose|i: int| 0 <= i < c2.len() && (#[trigger] c2[i]).0 == n;
        if i < cs.len() {
            assert(cs[i] == c2[i]);
        }
    }
    if named_in(cs, n) {
        let i = choose|i: int| 0 <= i < cs.len() && (#[trigger] cs[i]).0 == n;
        assert(c2[i] == cs[i]);
    }
    if y.0 == n {
        assert(c2[cs.len() as int] == y);
    }
}

/// The state of the transform tables after the declarations `ds`.
pub open spec fn transforms_of(
    reg: TransformRegistry,
    overridden: Map<Seq<char>, ()>,
    transformed: Map<Seq<char>, ()>,
    patterns: Seq<RoutePattern>,
    ds: Seq<(Selector, TransformEntry)>,
) -> bool {
    &&& groups_of(reg.components(), keyed(ds, 0))
    &&& groups_of(reg.slots(), keyed(ds, 1))
    &&& groups_of(reg.data_slots(), keyed(ds, 2))
    &&& reg.routes() == route_group(ds)
    &&& within_like(reg.within(), within_group(ds))
    &&& forall|n: Seq<char>| #[trigger] overridden.contains_key(n) <==> named_in(keyed(ds, 0), n)
    &&& forall|n: Seq<char>| #[trigger] transformed.contains_key(n) <==> named_in(keyed(ds, 1), n)
    &&& patterns == route_pattern_list(ds)
}

/// The transform tables of the plugins: component, slot, data-plugin-slot, route and
/// within-transforms, each ranked; the names of the overridden components and the
/// transformed slots; the route patterns in declaration order.
pub fn collect_transforms(plugins: &[(PluginId, LoadedPlugin)]) -> (r: (
    TransformRegistry,
    KeyMap<String, ()>,
    KeyMap<String, ()>,
    Vec<RoutePattern>,
))
    requires
        configs_wf(plugins@),
    ensures
        r.1.wf(),
        r.2.wf(),
        transforms_of(r.0, r.1@, r.2@, r.3@, declared_transforms(plugins@)),
{
    let mut reg = TransformRegistry::new();
    let mut overridden: KeyMap<String, ()> = KeyMap::new();
    let mut transformed: KeyMap<String, ()> = KeyMap::new();
    let mut patterns: Vec<RoutePattern> = Vec::new();
    proof {
        assert(declared_transforms(plugins@.take(0)) =~= Seq::<(Selector, TransformEntry)>::empty());
    }
    for i in 0..plugins.len()
        invariant
            configs_wf(plugins@),
            overridden.wf(),
            transformed.wf(),
            transforms_of(reg, overridden@, transformed@, patterns@, declared_transforms(plugins@.take(i as int))),
    {
        let (id, loaded) = (&plugins[i].0, &plugins[i].1);
        let ghost before = declared_transforms(plugins@.take(i as int));
        let ghost mine = plugin_transforms(plugins@[i as int]);
        proof {
            assert(loaded.config.overrides.wf());
            assert(before + mine.take(0) =~= before);
        }
        for j in 0..loaded.manifest.transforms.len()
            invariant
                overridden.wf(),
                transformed.wf(),
                loaded.config.overrides.wf(),
                *loaded == plugins@[i as int].1,
                *id == plugins@[i as int].0,
                mine == plugin_transforms(plugins@[i as int]),
                j <= mine.len(),
                transforms_of(reg, overridden@, transformed@, patterns@, before + mine.take(j as int)),
        {
            let t = &loaded.manifest.transforms[j];
            let priority = loaded.config.resolve(t.transform_fn.as_str(), &t.priority_hint);
            let entry = TransformEntry {
                plugin_id: copy_plugin_id(id),
                transform_fn: t.transform_fn.clone(),
                op: copy_op(&t.op),
                priority,
                route_pattern: None,
            };
            let ghost ds = before + mine.take(j as int);
            let ghost ds2 = before + mine.take(j + 1);
            proof {
                lemma_take_step(before, mine, j as int);
                assert(ds2.drop_last() =~= ds);
                assert(ds2.last() == (t.selector, entry));
            }
            let ghost old_reg = reg;
            let ghost old_ov = overridden@;
            let ghost old_tr = transformed@;
            match &t.selector {
                Selector::Component(name) => {
                    overridden.insert(name.clone(), ());
                    reg.insert_component(name.clone(), entry);
                    proof {
                        assert(keyed(ds2, 0) == keyed(ds, 0).push((name@, entry)));
                        assert(keyed(ds2, 1) == keyed(ds, 1));
                        assert(keyed(ds2, 2) == keyed(ds, 2));
                        lemma_group_push(old_reg.components(), reg.components(), keyed(ds, 0), name@, entry);
                        assert forall|n: Seq<char>| #[trigger] overridden@.contains_key(n) <==> named_in(keyed(ds2, 0), n) by {
                            lemma_named_push(keyed(ds, 0), (name@, entry), n);
                        }
                    }
                },
                Selector::Slot(name) => {
                    transformed.insert(name.clone(), ());
                    reg.insert_slot(name.clone(), entry);
                    proof {
                        assert(keyed(ds2, 1) == keyed(ds, 1).push((name@, entry)));
                        assert(keyed(ds2, 0) == keyed(ds, 0));
                        assert(keyed(ds2, 2) == keyed(ds, 2));
                        lemma_group_push(old_reg.slots(), reg.slots(), keyed(ds, 1), name@, entry);
                        assert forall|n: Seq<char>| #[trigger] transformed@.contains_key(n) <==> named_in(keyed(ds2, 1), n) by {
                            lemma_named_push(keyed(ds, 1), (name@, entry), n);
                        }
                    }
                },
                Selector::DataPluginSlot(name) => {
                    reg.insert_data_slot(name.clone(), entry);
                    proof {
                        assert(keyed(ds2, 2) == keyed(ds, 2).push((name@, entry)));
                        assert(keyed(ds2, 0) == keyed(ds, 0));
                        assert(keyed(ds2, 1) == keyed(ds, 1));
                        lemma_group_push(old_reg.data_slots(), reg.data_slots(), keyed(ds, 2), name@, entry);
                    }
                },
                Selector::Route(pattern) => {
                    patterns.push(RoutePattern(pattern.0.clone()));
                    reg.insert_route(RoutePattern(pattern.0.clone()), entry);
                    proof {
                        assert(keyed(ds2, 0) == keyed(ds, 0));
                        assert(keyed(ds2, 1) == keyed(ds, 1));
                        assert(keyed(ds2, 2) == keyed(ds, 2));
                    }
                },
                Selector::Within { outer, inner } => {
                    let o = copy_selector(outer);
                    reg.insert_within(o, copy_node_selector(inner), entry);
                    proof {
                        assert(keyed(ds2, 0) == keyed(ds, 0));
                        assert(keyed(ds2, 1) == keyed(ds, 1));
                        assert(keyed(ds2, 2) == keyed(ds, 2));
                        assert(selector_key(o) == selector_key(**outer));
                        lemma_within_like_insert(
                            old_reg.within(),
                            within_group(ds),
                            (o, *inner, entry),
                            (**outer, *inner, entry),
                        );
                    }
                },
                Selector::Any(_) => {
                    proof {
                        assert(keyed(ds2, 0) == keyed(ds, 0));
                        assert(keyed(ds2, 1) == keyed(ds, 1));
                        assert(keyed(ds2, 2) == keyed(ds, 2));
                    }
                },
            }
        }
        proof {
            assert(mine.take(mine.len() as int) =~= mine);
            assert(plugins@.take(i + 1).drop_last() =~= plugins@.take(i as int));
        }
    }
    proof {
        assert(plugins@.take(plugins@.len() as int) =~= plugins@);
    }
    (reg, overridden, transformed, patterns)
}

// ── API and page routes ─────────────────────────────────────────────────────

/// A route declaration, in the order the registries take them: each plugin's API
/// routes, then its page routes, plugin after plugin.
pub ghost enum RouteDecl {
    Api { method: Seq<char>, path: Seq<char>, handler: Seq<char>, plugin: PluginId },
    Page { decl: PageRouteDeclaration, plugin: PluginId },
}

/// The route declarations of plugin `p`.
pub open spec fn plugin_route_decls(p: (PluginId, LoadedPlugin)) -> Seq<RouteDecl> {
    p.1.manifest.api_routes@.map_values(
        |d: ApiRouteDeclaration|
            RouteDecl::Api { method: method_name(d.method), path: d.path@, handler: d.handler_fn@, plugin: p.0 },
    ) + p.1.manifest.page_routes@.map_values(
        |d: PageRouteDeclaration| RouteDecl::Page { decl: d, plugin: p.0 },
    )
}

/// The route declarations of all plugins, in order.
pub open spec fn route_decls(ps: Seq<(PluginId, LoadedPlugin)>) -> Seq<RouteDecl>
    decreases ps.len(),
{
    if ps.len() == 0 {
        Seq::empty()
    } else {
        route_decls(ps.drop_last()) + plugin_route_decls(ps.last())
    }
}

/// What two declarations must not share: an API route's method and path, a page
/// route's path.
pub open spec fn route_key(d: RouteDecl) -> (bool, Seq<char>, Seq<char>) {
    match d {
        RouteDecl::Api { method, path, .. } => (false, method, path),
        RouteDecl::Page { decl, .. } => (true, Seq::empty(), decl.path@),
    }
}

/// The plugin that declares `d`.
pub open spec fn route_owner(d: RouteDecl) -> PluginId {
    match d {
        RouteDecl::Api { plugin, .. } => plugin,
        RouteDecl::Page { plugin, .. } => plugin,
    }
}

/// Declaration `i` repeats the key of an earlier one.
pub open spec fn route_conflict(ds: Seq<RouteDecl>, i: int) -> bool {
    0 <= i < ds.len() && exists|j: int| 0 <= j < i && route_key(#[trigger] ds[j]) == route_key(ds[i])
}

/// No declaration of `ds` repeats the key of an earlier one.
pub open spec fn no_conflicts(ds: Seq<RouteDecl>) -> bool {
    forall|k: int| !#[trigger] route_conflict(ds, k)
}

/// Declaration `j` is the first with the key of declaration `i`.
pub open spec fn first_holder(ds: Seq<RouteDecl>, i: int, j: int) -> bool {
    &&& 0 <= j < i
    &&& route_key(ds[j]) == route_key(ds[i])
    &&& forall|k: int| 0 <= k < j ==> route_key(#[trigger] ds[k]) != route_key(ds[i])
}

/// The error reported for the conflicting declaration `i`.
pub open spec fn conflict_error(ds: Seq<RouteDecl>, i: int, e: PluginRuntimeError) -> bool {
    exists|j: int|
        first_holder(ds, i, j) && match ds[i] {
            RouteDecl::Api { method, path, plugin, .. } => e matches PluginRuntimeError::ApiRouteConflict {
                method: m,
                path: p,
                first,
                second,
            } && m@ == method && p@ == path && first == route_owner(ds[j]) && second == plugin,
            RouteDecl::Page { decl, plugin } => e matches PluginRuntimeError::PageRouteConflict {
                path: p,
                first,
                second,
            } && p@ == decl.path@ && first == route_owner(ds[j]) && second == plugin,
        }
}

/// The API registry entries of `ds`, in order: method, path, plugin, handler.
pub open spec fn api_list(ds: Seq<RouteDecl>) -> Seq<(Seq<char>, Seq<char>, PluginId, Seq<char>)>
    decreases ds.len(),
{
    if ds.len() == 0 {
        Seq::empty()
    } else {
        let prev = api_list(ds.drop_last());
        match ds.last() {
            RouteDecl::Api { method, path, handler, plugin } => prev.push((method, path, plugin, handler)),
            _ => prev,
        }
    }
}

/// The page route entry of declaration `d` of `plugin`.
pub open spec fn page_entry_of(d: PageRouteDeclaration, plugin: PluginId) -> (RoutePattern, PageRouteEntry) {
    (
        RoutePattern(d.path),
        PageRouteEntry {
            plugin_id: plugin,
            handler_fn: d.render_fn,
            bypass_layout: d.bypass_layout,
            title: d.title,
            pattern: RoutePattern(d.path),
        },
    )
}

/// The page registry entries of `ds`, in order.
pub open spec fn page_list(ds: Seq<RouteDecl>) -> Seq<(RoutePattern, PageRouteEntry)>
    decreases ds.len(),
{
    if ds.len() == 0 {
        Seq::empty()
    } else {
        let prev = page_list(ds.drop_last());
        match ds.last() {
            RouteDecl::Page { decl, plugin } => prev.push(page_entry_of(decl, plugin)),
            _ => prev,
        }
    }
}

/// An API registry entry as plain values: method, path, plugin, handler.
pub open spec fn api_entry_view(e: ((String, String), ApiRouteEntry)) -> (Seq<char>, Seq<char>, PluginId, Seq<char>) {
    (e.0.0@, e.0.1@, e.1.plugin_id, e.1.handler_fn@)
}

/// What has been seen of the declarations: key and owner of each, in order.
spec fn seen_matches(seen: Seq<(bool, String, String, PluginId)>, ds: Seq<RouteDecl>) -> bool {
    &&& seen.len() == ds.len()
    &&& forall|k: int|
        0 <= k < ds.len() ==> ((#[trigger] seen[k]).0, seen[k].1@, seen[k].2@) == route_key(ds[k])
            && seen[k].3 == route_owner(ds[k])
}

/// The first position of `seen` whose key is `(page, method, path)`.
fn first_seen(seen: &Vec<(bool, String, String, PluginId)>, page: bool, method: &str, path: &str) -> (r: Option<usize>)
    ensures
        match r {
            Some(j) => j < seen@.len() && (seen@[j as int].0, seen@[j as int].1@, seen@[j as int].2@) == (page, method@, path@)
                && forall|k: int| 0 <= k < j ==> ((#[trigger] seen@[k]).0, seen@[k].1@, seen@[k].2@) != (page, method@, path@),
            None => forall|k: int| 0 <= k < seen@.len() ==> ((#[trigger] seen@[k]).0, seen@[k].1@, seen@[k].2@) != (page, method@, path@),
        },
{
    for j in 0..seen.len()
        invariant
            forall|k: int| 0 <= k < j ==> ((#[trigger] seen@[k]).0, seen@[k].1@, seen@[k].2@) != (page, method@, path@),
    {
        let e = &seen[j];
        if e.0 == page && str_eq(e.1.as_str(), method) && str_eq(e.2.as_str(), path) {
            return Some(j);
        }
    }
    None
}

/// The API and page registries of the plugins; the first declaration (in the order of
/// [`route_decls`]) that repeats the key of an earlier one is an error.
pub fn collect_routes(plugins: &[(PluginId, LoadedPlugin)]) -> (r: Result<(ApiRegistry, PageRouteRegistry), PluginRuntimeError>)
    ensures
        r is Ok <==> forall|i: int| !route_conflict(route_decls(plugins@), i),
        r matches Ok((api, pages)) ==> api.0@.map_values(|e: ((String, String), ApiRouteEntry)| api_entry_view(e))
            == api_list(route_decls(plugins@)) && pages.0@ == page_list(route_decls(plugins@)),
        r matches Err(e) ==> exists|i: int|
            route_conflict(route_decls(plugins@), i) && (forall|k: int|
                0 <= k < i ==> !route_conflict(route_decls(plugins@), k)) && conflict_error(
                route_decls(plugins@),
                i,
                e,
            ),
{
    let mut api: Vec<((String, String), ApiRouteEntry)> = Vec::new();
    let mut pages: Vec<(RoutePattern, PageRouteEntry)> = Vec::new();
    let mut seen: Vec<(bool, String, String, PluginId)> = Vec::new();
    proof {
        assert(route_decls(plugins@.take(0)) =~= Seq::<RouteDecl>::empty());
    }
    for i in 0..plugins.len()
        invariant
            seen_matches(seen@, route_decls(plugins@.take(i as int))),
            no_conflicts(route_decls(plugins@.take(i as int))),
            api@.map_values(|e: ((String, String), ApiRouteEntry)| api_entry_view(e)) == api_list(route_decls(plugins@.take(i as int))),
            pages@ == page_list(route_decls(plugins@.take(i as int))),
    {
        let (id, loaded) = (&plugins[i].0, &plugins[i].1);
        let ghost before = route_decls(plugins@.take(i as int));
        let ghost mine = plugin_route_decls(plugins@[i as int]);
        let ghost napi = loaded.manifest.api_routes@.len();
        proof {
            assert(before + mine.take(0) =~= before);
            assert(plugins@.take(i + 1).drop_last() =~= plugins@.take(i as int));
            assert(route_decls(plugins@.take(i + 1)) == before + mine);
        }
        for j in 0..loaded.manifest.api_routes.len()
            invariant
                i < plugins@.len(),
                *loaded == plugins@[i as int].1,
                *id == plugins@[i as int].0,
                mine == plugin_route_decls(plugins@[i as int]),
                napi == loaded.manifest.api_routes@.len(),
                j <= napi,
                route_decls(plugins@.take(i + 1)) == before + mine,
                seen_matches(seen@, before + mine.take(j as int)),
                no_conflicts(before + mine.take(j as int)),
                api@.map_values(|e: ((String, String), ApiRouteEntry)| api_entry_view(e)) == api_list(before + mine.take(j as int)),
                pages@ == page_list(before + mine.take(j as int)),
        {
            let decl = &loaded.manifest.api_routes[j];
            let method = decl.method.as_str();
            let ghost ds = before + mine.take(j as int);
            let ghost ds2 = before + mine.take(j + 1);
            proof {
                lemma_take_step(before, mine, j as int);
                assert(mine[j as int] == RouteDecl::Api { method: method_name(decl.method), path: decl.path@, handler: decl.handler_fn@, plugin: *id });
                assert(ds2.drop_last() =~= ds);
                assert(ds2.last() == mine[j as int]);
            }
            match first_seen(&seen, false, method, decl.path.as_str()) {
                Some(k) => {
                    proof {
                        let full = route_decls(plugins@);
                        lemma_decls_prefix(plugins@, i + 1);
                        assert(full.take(ds2.len() as int) =~= ds2);
                        assert(ds2[k as int] == ds[k as int]);
                        assert(route_key(ds2[k as int]) == route_key(ds2[ds.len() as int]));
                        assert(route_conflict(ds2, ds.len() as int));
                        assert(full[ds.len() as int] == ds2[ds.len() as int]);
                        assert(full[k as int] == ds2[k as int]);
                        assert(route_conflict(full, ds.len() as int));
                        assert forall|q: int| 0 <= q < ds.len() implies !route_conflict(full, q) by {
                            if route_conflict(full, q) {
                                let w = choose|w: int| 0 <= w < q && route_key(#[trigger] full[w]) == route_key(full[q]);
                                assert(full[w] == ds[w] && full[q] == ds[q]);
                                assert(route_conflict(ds, q));
                            }
                        }
                        assert forall|q: int| 0 <= q < k implies route_key(#[trigger] full[q]) != route_key(full[ds.len() as int]) by {
                            assert(full[q] == ds[q]);
                            assert(((seen@[q]).0, seen@[q].1@, seen@[q].2@) == route_key(ds[q]));
                        }
                        assert(first_holder(full, ds.len() as int, k as int));
                    }
                    return Err(
                        PluginRuntimeError::ApiRouteConflict {
                            method: method.to_owned(),
                            path: decl.path.clone(),
                            first: copy_plugin_id(&seen[k].3),
                            second: copy_plugin_id(id),
                        },
                    );
                },
                None => {
                    let ghost old_api = api@;
                    let ghost old_seen = seen@;
                    seen.push((false, method.to_owned(), decl.path.clone(), copy_plugin_id(id)));
                    api.push(
                        (
                            (method.to_owned(), decl.path.clone()),
                            ApiRouteEntry { plugin_id: copy_plugin_id(id), handler_fn: decl.handler_fn.clone() },
                        ),
                    );
                    proof {
                        assert forall|q: int| !#[trigger] route_conflict(ds2, q) by {
                            if route_conflict(ds2, q) {
                                let w = choose|w: int| 0 <= w < q && route_key(#[trigger] ds2[w]) == route_key(ds2[q]);
                                if q < ds.len() {
                                    assert(ds2[w] == ds[w] && ds2[q] == ds[q]);
                                    assert(route_conflict(ds, q));
                                } else {
                                    assert(ds2[w] == ds[w]);
                                    assert(seen@[w] == old_seen[w]);
                                }
                            }
                        }
                        assert forall|q: int| 0 <= q < ds2.len() implies ((#[trigger] seen@[q]).0, seen@[q].1@, seen@[q].2@) == route_key(ds2[q])
                            && seen@[q].3 == route_owner(ds2[q]) by {
                            if q < ds.len() {
                                assert(ds2[q] == ds[q]);
                            }
                        }
                        assert(api@.map_values(|e: ((String, String), ApiRouteEntry)| api_entry_view(e)) =~= old_api.map_values(|e: ((String, String), ApiRouteEntry)| api_entry_view(e)).push((method_name(decl.method), decl.path@, *id, decl.handler_fn@)));
                    }
                },
            }
        }
        for j in 0..loaded.manifest.page_routes.len()
            invariant
                i < plugins@.len(),
                *loaded == plugins@[i as int].1,
                *id == plugins@[i as int].0,
                mine == plugin_route_decls(plugins@[i as int]),
                napi == loaded.manifest.api_routes@.len(),
                mine.len() == napi + loaded.manifest.page_routes@.len(),
                route_decls(plugins@.take(i + 1)) == before + mine,
                seen_matches(seen@, before + mine.take(napi + j)),
                no_conflicts(before + mine.take(napi + j)),
                api@.map_values(|e: ((String, String), ApiRouteEntry)| api_entry_view(e)) == api_list(before + mine.take(napi + j)),
                pages@ == page_list(before + mine.take(napi + j)),
        {
            let decl = &loaded.manifest.page_routes[j];
            let ghost ds = before + mine.take(napi + j);
            let ghost ds2 = before + mine.take(napi + j + 1);
            proof {
                lemma_take_step(before, mine, napi + j);
                assert(mine[napi + j] == RouteDecl::Page { decl: *decl, plugin: *id });
                assert(ds2.drop_last() =~= ds);
                assert(ds2.last() == mine[napi + j]);
                reveal_strlit("");
                assert(""@ =~= Seq::<char>::empty());
            }
            match first_seen(&seen, true, "", decl.path.as_str()) {
                Some(k) => {
                    proof {
                        let full = route_decls(plugins@);
                        lemma_decls_prefix(plugins@, i + 1);
                        assert(full.take(ds2.len() as int) =~= ds2);
                        assert(ds2[k as int] == ds[k as int]);
                        assert(route_key(ds2[k as int]) == route_key(ds2[ds.len() as int]));
                        assert(full[ds.len() as int] == ds2[ds.len() as int]);
                        assert(full[k as int] == ds2[k as int]);
                        assert(route_conflict(full, ds.len() as int));
                        assert forall|q: int| 0 <= q < ds.len() implies !route_conflict(full, q) by {
                            if route_conflict(full, q) {
                                let w = choose|w: int| 0 <= w < q && route_key(#[trigger] full[w]) == route_key(full[q]);
                                assert(full[w] == ds[w] && full[q] == ds[q]);
                                assert(route_conflict(ds, q));
                            }
                        }
                        assert forall|q: int| 0 <= q < k implies route_key(#[trigger] full[q]) != route_key(full[ds.len() as int]) by {
                            assert(full[q] == ds[q]);
                            assert(((seen@[q]).0, seen@[q].1@, seen@[q].2@) == route_key(ds[q]));
                        }
                        assert(first_holder(full, ds.len() as int, k as int));
                    }
                    return Err(
                        PluginRuntimeError::PageRouteConflict {
                            path: decl.path.clone(),
                            first: copy_plugin_id(&seen[k].3),
                            second: copy_plugin_id(id),
                        },
                    );
                },
                None => {
                    let ghost old_pages = pages@;
                    let ghost old_seen = seen@;
                    seen.push((true, String::new(), decl.path.clone(), copy_plugin_id(id)));
                    pages.push(
                        (
                            RoutePattern(decl.path.clone()),
                            PageRouteEntry {
                                plugin_id: copy_plugin_id(id),
                                handler_fn: decl.render_fn.clone(),
                                bypass_layout: decl.bypass_layout,
                                title: copy_opt_str(&decl.title),
                                pattern: RoutePattern(decl.path.clone()),
                            },
                        ),
                    );
                    proof {
                        assert forall|q: int| !#[trigger] route_conflict(ds2, q) by {
                            if route_conflict(ds2, q) {
                                let w = choose|w: int| 0 <= w < q && route_key(#[trigger] ds2[w]) == route_key(ds2[q]);
                                if q < ds.len() {
                                    assert(ds2[w] == ds[w] && ds2[q] == ds[q]);
                                    assert(route_conflict(ds, q));
                                } else {
                                    assert(ds2[w] == ds[w]);
                                    assert(seen@[w] == old_seen[w]);
                                }
                            }
                        }
                        assert forall|q: int| 0 <= q < ds2.len() implies ((#[trigger] seen@[q]).0, seen@[q].1@, seen@[q].2@) == route_key(ds2[q])
                            && seen@[q].3 == route_owner(ds2[q]) by {
                            if q < ds.len() {
                                assert(ds2[q] == ds[q]);
                            }
                        }
                    }
                },
            }
        }
        proof {
            assert(mine.take(napi + loaded.manifest.page_routes@.len() as int) =~= mine);
        }
    }
    proof {
        assert(plugins@.take(plugins@.len() as int) =~= plugins@);
    }
    Ok((ApiRegistry(api), PageRouteRegistry(pages)))
}

/// The declarations of the first `n` plugins are a prefix of all declarations.
proof fn lemma_decls_prefix(ps: Seq<(PluginId, LoadedPlugin)>, n: int)
    requires
        0 <= n <= ps.len(),
    ensures
        route_decls(ps.take(n)).len() <= route_decls(ps).len(),
        route_decls(ps).take(route_decls(ps.take(n)).len() as int) == route_decls(ps.take(n)),
    decreases ps.len() - n,
{
    if n == ps.len() {
        assert(ps.take(n) =~= ps);
        assert(route_decls(ps).take(route_decls(ps).len() as int) =~= route_decls(ps));
    } else {
        lemma_decls_prefix(ps, n + 1);
        assert(ps.take(n + 1).drop_last() =~= ps.take(n));
        let a = route_decls(ps.take(n));
        let b = route_decls(ps.take(n + 1));
        assert(b == a + plugin_route_decls(ps.take(n + 1).last()));
        assert(b.take(a.len() as int) =~= a);
        assert(route_decls(ps).take(a.len() as int) =~= route_decls(ps).take(b.len() as int).take(a.len() as int));
    }
}

// ── Client requirements ─────────────────────────────────────────────────────

/// The largest `min_protocol_version` of the plugins, 0 when there are none.
pub open spec fn max_protocol(ps: Seq<(PluginId, LoadedPlugin)>) -> u32
    decreases ps.len(),
{
    if ps.len() == 0 {
        0
    } else {
        let m = max_protocol(ps.drop_last());
        let v = ps.last().1.manifest.min_protocol_version;
        if m >= v { m } else { v }
    }
}

/// The largest `min_app_version` of the plugins, 0 when there are none.
pub open spec fn max_app(ps: Seq<(PluginId, LoadedPlugin)>) -> u32
    decreases ps.len(),
{
    if ps.len() == 0 {
        0
    } else {
        let m = max_app(ps.drop_last());
        let v = ps.last().1.manifest.min_app_version;
        if m >= v { m } else { v }
    }
}

/// A client requirement as plain values.
pub open spec fn requirement_view(r: PluginClientRequirement) -> (u32, u32, Seq<String>) {
    (r.min_protocol_version, r.min_app_version, r.required_host_components@)
}

/// Plugin id to the client requirements of its manifest (a later plugin with the same
/// id replaces an earlier one).
pub open spec fn requirements_of(ps: Seq<(PluginId, LoadedPlugin)>) -> Map<Seq<char>, (u32, u32, Seq<String>)>
    decreases ps.len(),
{
    if ps.len() == 0 {
        Map::empty()
    } else {
        let m = ps.last().1.manifest;
        requirements_of(ps.drop_last()).insert(
            ps.last().0.0@,
            (m.min_protocol_version, m.min_app_version, m.required_host_components@),
        )
    }
}

/// The largest version requirements, and each plugin's requirements.
pub fn client_requirements(plugins: &[(PluginId, LoadedPlugin)]) -> (r: (u32, u32, KeyMap<PluginId, PluginClientRequirement>))
    ensures
        r.0 == max_protocol(plugins@),
        r.1 == max_app(plugins@),
        r.2.wf(),
        r.2@.map_values(|q: PluginClientRequirement| requirement_view(q)) == requirements_of(plugins@),
{
    let mut proto: u32 = 0;
    let mut app: u32 = 0;
    let mut reqs: KeyMap<PluginId, PluginClientRequirement> = KeyMap::new();
    proof {
        assert(plugins@.take(0) =~= Seq::<(PluginId, LoadedPlugin)>::empty());
        assert(reqs@.map_values(|q: PluginClientRequirement| requirement_view(q)) =~= Map::<Seq<char>, (u32, u32, Seq<String>)>::empty());
    }
    for i in 0..plugins.len()
        invariant
            proto == max_protocol(plugins@.take(i as int)),
            app == max_app(plugins@.take(i as int)),
            reqs.wf(),
            reqs@.map_values(|q: PluginClientRequirement| requirement_view(q)) == requirements_of(plugins@.take(i as int)),
    {
        let (id, loaded) = (&plugins[i].0, &plugins[i].1);
        let m = &loaded.manifest;
        proof {
            assert(plugins@.take(i + 1).drop_last() =~= plugins@.take(i as int));
            assert(plugins@.take(i + 1).last() == plugins@[i as int]);
        }
        if m.min_protocol_version > proto {
            proto = m.min_protocol_version;
        }
        if m.min_app_version > app {
            app = m.min_app_version;
        }
        let ghost before = reqs@;
        let req = PluginClientRequirement {
            min_protocol_version: m.min_protocol_version,
            min_app_version: m.min_app_version,
            required_host_components: copy_strings(&m.required_host_components),
        };
        reqs.insert(copy_plugin_id(id), req);
        proof {
            assert(reqs@.map_values(|q: PluginClientRequirement| requirement_view(q)) =~= before.map_values(
                |q: PluginClientRequirement| requirement_view(q),
            ).insert(id.0@, requirement_view(req)));
        }
    }
    proof {
        assert(plugins@.take(plugins@.len() as int) =~= plugins@);
    }
    (proto, app, reqs)
}

/// `s` with every run of consecutive equal patterns cut to its first.
pub open spec fn dedup_patterns(s: Seq<RoutePattern>) -> Seq<RoutePattern>
    decreases s.len(),
{
    if s.len() == 0 {
        Seq::empty()
    } else {
        let prev = dedup_patterns(s.drop_last());
        if s.len() >= 2 && s[s.len() - 2].0@ == s.last().0@ {
            prev
        } else {
            prev.push(s.last())
        }
    }
}

/// The patterns of `v` with consecutive repeats removed.
pub fn dedup_route_patterns(v: &Vec<RoutePattern>) -> (r: Vec<RoutePattern>)
    ensures
        r@ == dedup_patterns(v@),
{
    let mut r: Vec<RoutePattern> = Vec::new();
    proof {
        assert(v@.take(0) =~= Seq::<RoutePattern>::empty());
    }
    for i in 0..v.len()
        invariant
            r@ == dedup_patterns(v@.take(i as int)),
    {
        proof {
            assert(v@.take(i + 1).drop_last() =~= v@.take(i as int));
            assert(v@.take(i + 1).last() == v@[i as int]);
        }
        let repeat = i > 0 && str_eq(v[i - 1].0.as_str(), v[i].0.as_str());
        proof {
            if i > 0 {
                assert(v@.take(i + 1)[i - 1] == v@[i - 1]);
            }
        }
        if !repeat {
            r.push(RoutePattern(v[i].0.clone()));
        }
    }
    proof {
        assert(v@.take(v@.len() as int) =~= v@);
    }
    r
}

// ── All registries ──────────────────────────────────────────────────────────

/// Everything dispatch reads, rebuilt whenever the set of plugins changes.
pub struct Registries {
    pub slots: SlotRegistry,
    pub hooks: HookRegistry,
    pub transforms: TransformRegistry,
    pub override_map: OverrideMap,
    pub api_routes: ApiRegistry,
    pub page_routes: PageRouteRegistry,
}

/// The prefix as an optional string.
pub open spec fn opt_str_view(s: Option<String>) -> Option<Seq<char>> {
    match s {
        Some(x) => Some(x@),
        None => None,
    }
}

/// The prefix as an optional string slice.
pub open spec fn opt_slice_view(s: Option<&str>) -> Option<Seq<char>> {
    match s {
        Some(x) => Some(x@),
        None => None,
    }
}

/// What the registries built from `ps` hold.
pub open spec fn registries_of(regs: Registries, ps: Seq<(PluginId, LoadedPlugin)>, page_prefix: Option<Seq<char>>) -> bool {
    let ds = declared_transforms(ps);
    let om = regs.override_map;
    &&& regs.slots.0.wf()
    &&& groups_of(regs.slots.0@, slot_contributions(ps))
    &&& regs.hooks.0.wf()
    &&& groups_of(regs.hooks.0@, hook_contributions(ps))
    &&& om.overridden_components.wf()
    &&& om.transformed_slots.wf()
    &&& transforms_of(regs.transforms, om.overridden_components@, om.transformed_slots@, route_pattern_list(ds), ds)
    &&& om.version == 0
    &&& om.route_patterns@ == dedup_patterns(route_pattern_list(ds))
    &&& om.required_protocol_version == max_protocol(ps)
    &&& om.required_app_version == max_app(ps)
    &&& om.plugin_requirements.wf()
    &&& om.plugin_requirements@.map_values(|q: PluginClientRequirement| requirement_view(q)) == requirements_of(ps)
    &&& opt_str_view(om.page_route_prefix) == page_prefix
    &&& regs.api_routes.0@.map_values(|e: ((String, String), ApiRouteEntry)| api_entry_view(e)) == api_list(route_decls(ps))
    &&& regs.page_routes.0@ == page_list(route_decls(ps))
}

/// Build every registry from the loaded plugins, in their order. Fails on the first
/// API route (same method and path) or page route (same path) declared twice.
pub fn build_registries(plugins: &[(PluginId, LoadedPlugin)], page_prefix: Option<&str>) -> (r: Result<Registries, PluginRuntimeError>)
    requires
        configs_wf(plugins@),
    ensures
        r is Ok <==> no_conflicts(route_decls(plugins@)),
        r matches Ok(regs) ==> registries_of(regs, plugins@, opt_slice_view(page_prefix)),
        r matches Err(e) ==> exists|i: int|
            route_conflict(route_decls(plugins@), i) && (forall|k: int|
                0 <= k < i ==> !route_conflict(route_decls(plugins@), k)) && conflict_error(
                route_decls(plugins@),
                i,
                e,
            ),
{
    let (api_routes, page_routes) = match collect_routes(plugins) {
        Ok(v) => v,
        Err(e) => {
            return Err(e);
        },
    };
    let slots = collect_slots(plugins);
    let hooks = collect_hooks(plugins);
    let (transforms, overridden_components, transformed_slots, patterns) = collect_transforms(plugins);
    let (required_protocol_version, required_app_version, plugin_requirements) = client_requirements(plugins);
    let page_route_prefix = match page_prefix {
        Some(p) => Some(p.to_owned()),
        None => None,
    };
    let route_patterns = dedup_route_patterns(&patterns);
    Ok(
        Registries {
            slots,
            hooks,
            transforms,
            override_map: OverrideMap {
                version: 0,
                overridden_components,
                transformed_slots,
                route_patterns,
                required_protocol_version,
                required_app_version,
                plugin_requirements,
                page_route_prefix,
            },
            api_routes,
            page_routes,
        },
    )
}

/// The registries after the loaded plugins changed: rebuilt as [`build_registries`]
/// builds them, with the override map's version one past `previous`, so that clients
/// holding an older map see that it is stale.
pub fn rebuild_registries(
    plugins: &[(PluginId, LoadedPlugin)],
    page_prefix: Option<&str>,
    previous: u64,
) -> (r: Result<Registries, PluginRuntimeError>)
    requires
        configs_wf(plugins@),
        previous < u64::MAX,
    ensures
        r is Ok <==> no_conflicts(route_decls(plugins@)),
        r matches Ok(regs) ==> regs.override_map.version == previous + 1 && registries_of(
            Registries { override_map: OverrideMap { version: 0, ..regs.override_map }, ..regs },
            plugins@,
            opt_slice_view(page_prefix),
        ),
        r matches Err(e) ==> exists|i: int|
            route_conflict(route_decls(plugins@), i) && (forall|k: int|
                0 <= k < i ==> !route_conflict(route_decls(plugins@), k)) && conflict_error(
                route_decls(plugins@),
                i,
                e,
            ),
{
    match build_registries(plugins, page_prefix) {
        Ok(regs) => {
            let ghost built = regs;
            let mut regs = regs;
            regs.override_map.version = previous + 1;
            assert(Registries { override_map: OverrideMap { version: 0, ..regs.override_map }, ..regs } == built);
            Ok(regs)
        },
        Err(e) => Err(e),
    }
}

/// Position `i` holds the first loaded plugin with the id `id`.
pub open spec fn first_loaded_at(s: Seq<(PluginId, LoadedPlugin)>, id: Seq<char>, i: int) -> bool {
    &&& 0 <= i < s.len()
    &&& s[i].0.0@ == id
    &&& forall|j: int| 0 <= j < i ==> (#[trigger] s[j]).0.0@ != id
}

/// Swap in the new build `entry` of loaded plugin `id`, in place: the plugin keeps its
/// position, so the order of every registry built afterwards is unchanged. Nothing
/// changes when no plugin has that id.
pub fn replace_loaded(plugins: &mut Vec<(PluginId, LoadedPlugin)>, id: &PluginId, entry: LoadedPlugin) -> (found: bool)
    ensures
        found <==> exists|i: int| 0 <= i < old(plugins)@.len() && (#[trigger] old(plugins)@[i]).0.0@ == id.0@,
        found ==> exists|i: int|
            first_loaded_at(old(plugins)@, id.0@, i) && final(plugins)@ == old(plugins)@.update(i, (*id, entry)),
        !found ==> final(plugins)@ == old(plugins)@,
{
    let mut i: usize = 0;
    while i < plugins.len()
        invariant
            i <= plugins@.len(),
            plugins@ == old(plugins)@,
            forall|j: int| 0 <= j < i ==> (#[trigger] plugins@[j]).0.0@ != id.0@,
        decreases plugins@.len() - i,
    {
        if str_eq(plugins[i].0.0.as_str(), id.0.as_str()) {
            plugins.set(i, (copy_plugin_id(id), entry));
            assert(first_loaded_at(old(plugins)@, id.0@, i as int));
            return true;
        }
        i = i + 1;
    }
    false
}

// ── Summaries and hook outcomes ─────────────────────────────────────────────

/// A snapshot of one loaded plugin.
#[derive(Debug, Clone)]
pub struct PluginSummary {
    pub id: PluginId,
    pub version: String,
    pub enabled: bool,
    pub trust_tag: TrustTag,
    pub min_protocol_version: u32,
    pub min_app_version: u32,
}

/// The summary of plugin `p`: its manifest's id and versions, its state and trust tag.
pub open spec fn summary_of(p: LoadedPlugin, s: PluginSummary) -> bool {
    &&& s.id == p.manifest.id
    &&& s.version@ == p.manifest.version@
    &&& s.enabled == p.enabled
    &&& s.trust_tag.verified == p.trust_tag.verified
    &&& opt_str_view(s.trust_tag.signer_key_id) == opt_str_view(p.trust_tag.signer_key_id)
    &&& s.min_protocol_version == p.manifest.min_protocol_version
    &&& s.min_app_version == p.manifest.min_app_version
}

/// A summary of each loaded plugin, in order.
pub fn list_plugins(plugins: &[(PluginId, LoadedPlugin)]) -> (r: Vec<PluginSummary>)
    ensures
        r@.len() == plugins@.len(),
        forall|i: int| 0 <= i < r@.len() ==> summary_of(plugins@[i].1, #[trigger] r@[i]),
{
    let mut r: Vec<PluginSummary> = Vec::new();
    for i in 0..plugins.len()
        invariant
            r@.len() == i,
            forall|k: int| 0 <= k < i ==> summary_of(plugins@[k].1, #[trigger] r@[k]),
    {
        let p = &plugins[i].1;
        r.push(
            PluginSummary {
                id: copy_plugin_id(&p.manifest.id),
                version: p.manifest.version.clone(),
                enabled: p.enabled,
                trust_tag: TrustTag {
                    verified: p.trust_tag.verified,
                    signer_key_id: copy_opt_str(&p.trust_tag.signer_key_id),
                },
                min_protocol_version: p.manifest.min_protocol_version,
                min_app_version: p.manifest.min_app_version,
            },
        );
    }
    r
}

/// The result of running a hook chain.
#[derive(Debug, Clone)]
#[non_exhaustive]
pub enum HookOutcome<T> {
    /// Every plugin of the chain let the context through.
    Passed(T),
    /// A plugin cancelled the hook, which stops the chain.
    Cancelled { by: PluginId, reason: String },
}


// ── Laws on route keys ──────────────────────────────────────────────────────

/// Two API routes of a plugin that differ in method never share a route key, even
/// on one path: each carries its own method's name.
pub proof fn law_api_routes_keyed_by_method(p: (PluginId, LoadedPlugin), i: int, j: int)
    requires
        0 <= i < p.1.manifest.api_routes@.len(),
        0 <= j < p.1.manifest.api_routes@.len(),
        p.1.manifest.api_routes@[i].method != p.1.manifest.api_routes@[j].method,
    ensures
        plugin_route_decls(p)[i] == (RouteDecl::Api {
            method: method_name(p.1.manifest.api_routes@[i].method),
            path: p.1.manifest.api_routes@[i].path@,
            handler: p.1.manifest.api_routes@[i].handler_fn@,
            plugin: p.0,
        }),
        route_key(plugin_route_decls(p)[i]) != route_key(plugin_route_decls(p)[j]),
{
    law_method_names_distinct(p.1.manifest.api_routes@[i].method, p.1.manifest.api_routes@[j].method);
    assert(plugin_route_decls(p)[i] == p.1.manifest.api_routes@.map_values(
        |d: ApiRouteDeclaration|
            RouteDecl::Api { method: method_name(d.method), path: d.path@, handler: d.handler_fn@, plugin: p.0 },
    )[i]);
    assert(plugin_route_decls(p)[j] == p.1.manifest.api_routes@.map_values(
        |d: ApiRouteDeclaration|
            RouteDecl::Api { method: method_name(d.method), path: d.path@, handler: d.handler_fn@, plugin: p.0 },
    )[j]);
}

/// A lone plugin whose API routes pairwise differ in method or path, and which
/// declares no page routes, has no route conflict: routes on one path with
/// different methods all register.
pub proof fn law_distinct_api_routes_never_conflict(p: (PluginId, LoadedPlugin))
    requires
        p.1.manifest.page_routes@.len() == 0,
        forall|i: int, j: int|
            0 <= i < j < p.1.manifest.api_routes@.len() ==> (#[trigger] p.1.manifest.api_routes@[i]).method
                != (#[trigger] p.1.manifest.api_routes@[j]).method || p.1.manifest.api_routes@[i].path@
                != p.1.manifest.api_routes@[j].path@,
    ensures
        no_conflicts(route_decls(seq![p])),
{
    let api = p.1.manifest.api_routes@;
    let ds = route_decls(seq![p]);
    assert(seq![p].len() == 1);
    assert(seq![p].drop_last() =~= Seq::<(PluginId, LoadedPlugin)>::empty());
    assert(route_decls(Seq::<(PluginId, LoadedPlugin)>::empty()) == Seq::<RouteDecl>::empty());
    assert(seq![p].last() == p);
    assert(route_decls(seq![p]) == route_decls(seq![p].drop_last()) + plugin_route_decls(seq![p].last()));
    assert(ds =~= plugin_route_decls(p));
    assert(ds.len() == api.len());
    assert forall|k: int| !#[trigger] route_conflict(ds, k) by {
        if route_conflict(ds, k) {
            let j = choose|j: int| 0 <= j < k && route_key(#[trigger] ds[j]) == route_key(ds[k]);
            assert(ds[j] == plugin_route_decls(p)[j]);
            assert(ds[k] == plugin_route_decls(p)[k]);
            if api[j].method != api[k].method {
                law_api_routes_keyed_by_method(p, j, k);
            } else {
                assert(api[j].path@ != api[k].path@);
                assert(plugin_route_decls(p)[j] == p.1.manifest.api_routes@.map_values(
                    |d: ApiRouteDeclaration|
                        RouteDecl::Api { method: method_name(d.method), path: d.path@, handler: d.handler_fn@, plugin: p.0 },
                )[j]);
                assert(plugin_route_decls(p)[k] == p.1.manifest.api_routes@.map_values(
                    |d: ApiRouteDeclaration|
                        RouteDecl::Api { method: method_name(d.method), path: d.path@, handler: d.handler_fn@, plugin: p.0 },
                )[k]);
            }
        }
    }
}

} // verus!
