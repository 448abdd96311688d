//! The decisions of render-time dispatch: which plugins a request reaches, what is
//! served in place of a plugin that cannot render, and how plugin outputs combine.
//! The host performs the plugin calls and hands their results back.

use vstd::prelude::*;
use vstd::string::StringExecFns;

use crate::errors::PluginRuntimeError;
use crate::keymap::KeyMap;
use crate::plugins::LoadedPlugin;
use crate::protocol::{
    copy_plugin_id, route_params, string_map_view, ClientCapabilities, ComponentResolution,
    HookResult, PluginId, PluginManifest, RoutePattern, SessionCtx, SlotContent, TransformContext,
    TransformInput, TransformOp,
};
use crate::registry::{copy_entry, TransformEntry};
use crate::text::{chars_of, split_on, split_state, split_str};
use crate::viewtree::PluginView;

verus! {

broadcast use vstd::string::group_string_axioms;

// ── Text ────────────────────────────────────────────────────────────────────

/// The decimal digit `d` (0 to 9) as a character.
pub open spec fn digit_char(d: nat) -> char {
    (48 + d) as char
}

/// The decimal representation of `n`, without leading zeros.
pub open spec fn decimal(n: nat) -> Seq<char>
    decreases n,
{
    if n < 10 {
        seq![digit_char(n)]
    } else {
        decimal(n / 10).push(digit_char(n % 10))
    }
}

/// The digit `d` as a one-character string.
fn digit_str(d: u32) -> (s: &'static str)
    requires
        d < 10,
    ensures
        s@ == seq![digit_char(d as nat)],
{
    proof {
        reveal_strlit("0");
        reveal_strlit("1");
        reveal_strlit("2");
        reveal_strlit("3");
        reveal_strlit("4");
        reveal_strlit("5");
        reveal_strlit("6");
        reveal_strlit("7");
        reveal_strlit("8");
        reveal_strlit("9");
    }
    if d == 0 {
        "0"
    } else if d == 1 {
        "1"
    } else if d == 2 {
        "2"
    } else if d == 3 {
        "3"
    } else if d == 4 {
        "4"
    } else if d == 5 {
        "5"
    } else if d == 6 {
        "6"
    } else if d == 7 {
        "7"
    } else if d == 8 {
        "8"
    } else {
        "9"
    }
}

/// `n` in decimal, as `format!("{n}")` writes it.
pub fn u32_text(n: u32) -> (s: String)
    ensures
        s@ == decimal(n as nat),
    decreases n,
{
    if n < 10 {
        String::from_str(digit_str(n))
    } else {
        let mut s = u32_text(n / 10);
        s.append(digit_str(n % 10));
        s
    }
}

/// `n` in decimal, as `format!("{n}")` writes it.
pub fn usize_text(n: usize) -> (s: String)
    ensures
        s@ == decimal(n as nat),
    decreases n,
{
    if n < 10 {
        String::from_str(digit_str(n as u32))
    } else {
        let mut s = usize_text(n / 10);
        s.append(digit_str((n % 10) as u32));
        s
    }
}

/// What `{:?}` writes for a string: the text quoted, with quotes, backslashes and
/// control characters escaped.
pub uninterp spec fn debug_text(s: Seq<char>) -> Seq<char>;

/// `format!("{:?}", s)` for a string slice (`<str as Debug>::fmt`). The result is named
/// [`debug_text`] of the text; the escaping rules are not restated.
#[verifier::external_body]
fn debug_string(s: &str) -> (r: String)
    ensures
        r@ == debug_text(s@),
{
    format!("{:?}", s)
}

/// `a` followed by `b`.
pub fn concat(a: &str, b: &str) -> (r: String)
    ensures
        r@ == a@ + b@,
{
    let mut r = String::from_str(a);
    r.append(b);
    r
}

// ── Compatibility ───────────────────────────────────────────────────────────

/// The client meets both minimum versions of manifest `m`.
pub open spec fn compatible(m: PluginManifest, c: ClientCapabilities) -> bool {
    m.min_protocol_version <= c.protocol_version && m.min_app_version <= c.app_version
}

/// Whether `client` can render what `plugin` sends.
pub fn is_compatible(plugin: &LoadedPlugin, client: &ClientCapabilities) -> (b: bool)
    ensures
        b == compatible(plugin.manifest, *client),
{
    plugin.manifest.min_protocol_version <= client.protocol_version
        && plugin.manifest.min_app_version <= client.app_version
}

/// A plugin that a render call may reach: loaded, enabled and compatible.
pub open spec fn reachable(plugin: Option<LoadedPlugin>, c: ClientCapabilities) -> bool {
    match plugin {
        Some(p) => p.enabled && compatible(p.manifest, c),
        None => false,
    }
}

/// Whether a render call may reach `plugin`.
pub fn is_reachable(plugin: Option<&LoadedPlugin>, client: &ClientCapabilities) -> (b: bool)
    ensures
        b == reachable(
            match plugin {
                Some(p) => Some(*p),
                None => None,
            },
            *client,
        ),
{
    match plugin {
        Some(p) => p.enabled && is_compatible(p, client),
        None => false,
    }
}

/// Why a client cannot render manifest `m`: the protocol version when that falls
/// short, else the app version.
pub open spec fn incompatibility_reason(m: PluginManifest, c: ClientCapabilities) -> Seq<char> {
    if m.min_protocol_version > c.protocol_version {
        "plugin requires protocol "@ + decimal(m.min_protocol_version as nat) + ", client has "@
            + decimal(c.protocol_version as nat)
    } else {
        "plugin requires app version "@ + decimal(m.min_app_version as nat) + ", client has "@
            + decimal(c.app_version as nat)
    }
}

/// The reason served for a disabled plugin.
pub open spec fn disabled_reason(id: PluginId) -> Seq<char> {
    "plugin PluginId("@ + debug_text(id.0@) + ") is disabled"@
}

/// Why the client cannot render manifest `m`.
fn incompatibility_text(m: &PluginManifest, c: &ClientCapabilities) -> (r: String)
    ensures
        r@ == incompatibility_reason(*m, *c),
{
    if m.min_protocol_version > c.protocol_version {
        let mut r = String::from_str("plugin requires protocol ");
        r.append(u32_text(m.min_protocol_version).as_str());
        r.append(", client has ");
        r.append(u32_text(c.protocol_version).as_str());
        r
    } else {
        let mut r = String::from_str("plugin requires app version ");
        r.append(u32_text(m.min_app_version).as_str());
        r.append(", client has ");
        r.append(u32_text(c.app_version).as_str());
        r
    }
}

// ── Slots ───────────────────────────────────────────────────────────────────

/// What rendering a slot does with one of its contributors.
pub enum SlotStep {
    /// The plugin is gone: it contributes nothing.
    Skip,
    /// Serve this content without calling the plugin.
    Serve(SlotContent),
    /// Call the plugin's `slot_render` export.
    Render,
}

/// An `Incompatible` view with `reason` and no fallback.
pub open spec fn is_incompatible_with(v: PluginView, reason: Seq<char>) -> bool {
    v matches PluginView::Incompatible { reason: r, fallback } && r@ == reason && fallback is None
}

/// Decide what rendering a slot does with the contributor `plugin_id` at `priority`:
/// nothing when it is not loaded; an `Incompatible` view when the client is too old
/// for it or when it is disabled; a call otherwise.
pub fn slot_step(
    priority: i32,
    plugin_id: &PluginId,
    plugin: Option<&LoadedPlugin>,
    client: &ClientCapabilities,
) -> (r: SlotStep)
    ensures
        match plugin {
            None => r is Skip,
            Some(p) => if !compatible(p.manifest, *client) {
                r matches SlotStep::Serve(c) && c.plugin_id == *plugin_id && c.priority == priority
                    && is_incompatible_with(c.view, incompatibility_reason(p.manifest, *client))
            } else if !p.enabled {
                r matches SlotStep::Serve(c) && c.plugin_id == *plugin_id && c.priority == priority
                    && is_incompatible_with(c.view, disabled_reason(*plugin_id))
            } else {
                r is Render
            },
        },
{
    match plugin {
        None => SlotStep::Skip,
        Some(p) => {
            if !is_compatible(p, client) {
                let reason = incompatibility_text(&p.manifest, client);
                SlotStep::Serve(
                    SlotContent {
                        plugin_id: copy_plugin_id(plugin_id),
                        priority,
                        view: PluginView::Incompatible { reason, fallback: None },
                    },
                )
            } else if !p.enabled {
                let mut reason = String::from_str("plugin PluginId(");
                reason.append(debug_string(plugin_id.0.as_str()).as_str());
                reason.append(") is disabled");
                SlotStep::Serve(
                    SlotContent {
                        plugin_id: copy_plugin_id(plugin_id),
                        priority,
                        view: PluginView::Incompatible { reason, fallback: None },
                    },
                )
            } else {
                SlotStep::Render
            }
        },
    }
}

/// The content served when a plugin's `slot_render` call failed with `message`.
pub fn render_failed(plugin_id: &PluginId, priority: i32, message: &str) -> (c: SlotContent)
    ensures
        c.plugin_id == *plugin_id,
        c.priority == priority,
        is_incompatible_with(c.view, "render failed: "@ + message@),
{
    proof {
        reveal_strlit("render failed: ");
    }
    SlotContent {
        plugin_id: copy_plugin_id(plugin_id),
        priority,
        view: PluginView::Incompatible { reason: concat("render failed: ", message), fallback: None },
    }
}

// ── Components ──────────────────────────────────────────────────────────────

/// The input of a component transform: no original, the component's props, the
/// client's capabilities.
pub fn component_transform_input(props: &serde_json::Value, session: &SessionCtx) -> (t: TransformInput)
    ensures
        t.original is None,
        t.context.route_params.wf(),
        t.context.route_params@ == Map::<Seq<char>, String>::empty(),
        t.context.component_props == Some(*props),
        t.context.slot_name is None,
        t.context.client@ == session.client@,
        t.session@ == session@,
{
    TransformInput {
        original: None,
        context: TransformContext {
            route_params: KeyMap::new(),
            component_props: Some(props.clone()),
            slot_name: None,
            client: session.client.copy(),
        },
        session: session.copy(),
    }
}

/// Place a component transform's output by its operation: injected before or after,
/// or (wrap-node, replace) as the replacement, the last one winning; any other
/// operation is ignored.
pub fn absorb_component_output(res: &mut ComponentResolution, op: &TransformOp, view: PluginView)
    ensures
        match op {
            TransformOp::InjectBefore => final(res).before@ == old(res).before@.push(view) && final(res).after
                == old(res).after && final(res).replacement == old(res).replacement,
            TransformOp::InjectAfter => final(res).after@ == old(res).after@.push(view) && final(res).before
                == old(res).before && final(res).replacement == old(res).replacement,
            TransformOp::WrapNode | TransformOp::Replace => final(res).replacement == Some(view)
                && final(res).before == old(res).before && final(res).after == old(res).after,
            _ => *final(res) == *old(res),
        },
{
    match op {
        TransformOp::InjectBefore => res.before.push(view),
        TransformOp::InjectAfter => res.after.push(view),
        TransformOp::WrapNode | TransformOp::Replace => {
            res.replacement = Some(view);
        },
        _ => {},
    }
}

// ── Routes ──────────────────────────────────────────────────────────────────

/// The parameters that `path` binds against the pattern recorded in entry `e`: none
/// when it records no pattern or `path` does not match it.
pub open spec fn entry_params(e: TransformEntry, path: Seq<char>) -> Map<Seq<char>, Seq<char>> {
    match e.route_pattern {
        Some(p) => match route_params(p@, path) {
            Some(m) => m,
            None => Map::empty(),
        },
        None => Map::empty(),
    }
}

/// The input of a route transform of `entry` on `path`.
pub fn route_transform_input(
    entry: &TransformEntry,
    path: &str,
    session: &SessionCtx,
    original: Option<PluginView>,
) -> (t: TransformInput)
    ensures
        t.original == original,
        t.context.route_params.wf(),
        string_map_view(t.context.route_params) == entry_params(*entry, path@),
        t.context.component_props is None,
        t.context.slot_name is None,
        t.context.client@ == session.client@,
        t.session@ == session@,
{
    let params = match &entry.route_pattern {
        Some(p) => match RoutePattern(p.clone()).extract_params(path) {
            Some(m) => m,
            None => {
                let m = KeyMap::new();
                assert(string_map_view(m) =~= Map::<Seq<char>, Seq<char>>::empty());
                m
            },
        },
        None => {
            let m = KeyMap::new();
            assert(string_map_view(m) =~= Map::<Seq<char>, Seq<char>>::empty());
            m
        },
    };
    TransformInput {
        original,
        context: TransformContext {
            route_params: params,
            component_props: None,
            slot_name: None,
            client: session.client.copy(),
        },
        session: session.copy(),
    }
}

/// A code for the operations that partition route transforms: inject-before,
/// wrap, inject-after, route-replace, anything else.
pub open spec fn route_op_code(op: TransformOp) -> int {
    match op {
        TransformOp::InjectBefore => 0,
        TransformOp::Wrap => 1,
        TransformOp::InjectAfter => 2,
        TransformOp::RouteReplace => 3,
        _ => 4,
    }
}

/// The entries of `s` whose operation has code `k`, in order.
pub open spec fn with_op(s: Seq<TransformEntry>, k: int) -> Seq<TransformEntry>
    decreases s.len(),
{
    if s.len() == 0 {
        Seq::empty()
    } else if route_op_code(s.last().op) == k {
        with_op(s.drop_last(), k).push(s.last())
    } else {
        with_op(s.drop_last(), k)
    }
}

/// `a` comes strictly before `b` in the order of `str`: by characters (Unicode scalar
/// values, the order of their UTF-8 bytes), a proper prefix first.
pub open spec fn str_less(a: Seq<char>, b: Seq<char>) -> bool
    decreases a.len(),
{
    if b.len() == 0 {
        false
    } else if a.len() == 0 {
        true
    } else if a[0] < b[0] {
        true
    } else if a[0] > b[0] {
        false
    } else {
        str_less(a.drop_first(), b.drop_first())
    }
}

/// Whether `a` sorts strictly before `b` as strings.
pub fn string_less(a: &str, b: &str) -> (r: bool)
    ensures
        r == str_less(a@, b@),
{
    let x = chars_of(a);
    let y = chars_of(b);
    let mut i: usize = 0;
    proof {
        assert(a@.subrange(0, a@.len() as int) =~= a@);
        assert(b@.subrange(0, b@.len() as int) =~= b@);
    }
    while i < x.len() && i < y.len() && x[i] == y[i]
        invariant
            0 <= i <= x@.len(),
            i <= y@.len(),
            x@ == a@,
            y@ == b@,
            x@.subrange(0, i as int) == y@.subrange(0, i as int),
            str_less(a@, b@) == str_less(a@.subrange(i as int, a@.len() as int), b@.subrange(i as int, b@.len() as int)),
        decreases x@.len() - i,
    {
        proof {
            let s1 = a@.subrange(i as int, a@.len() as int);
            let s2 = b@.subrange(i as int, b@.len() as int);
            assert(s1.drop_first() =~= a@.subrange(i + 1, a@.len() as int));
            assert(s2.drop_first() =~= b@.subrange(i + 1, b@.len() as int));
            assert(x@.subrange(0, i + 1) =~= x@.subrange(0, i as int).push(x@[i as int]));
            assert(y@.subrange(0, i + 1) =~= y@.subrange(0, i as int).push(y@[i as int]));
        }
        i = i + 1;
    }
    let ghost s1 = a@.subrange(i as int, a@.len() as int);
    let ghost s2 = b@.subrange(i as int, b@.len() as int);
    if i == y.len() {
        assert(s2.len() == 0);
        false
    } else if i == x.len() {
        assert(s1.len() == 0 && s2.len() > 0);
        true
    } else {
        let cx = x[i];
        let cy = y[i];
        assert(s1[0] == cx && s2[0] == cy);
        assert(cx != cy);
        let r = cx < cy;
        assert(r == str_less(s1, s2));
        r
    }
}

/// Route-replace candidate `a` is tried before `b`: higher priority first, then the
/// smaller plugin id.
pub open spec fn replace_before(a: TransformEntry, b: TransformEntry) -> bool {
    a.priority > b.priority || (a.priority == b.priority && str_less(a.plugin_id.0@, b.plugin_id.0@))
}

/// The first position at or after `i` whose element `e` comes strictly before, or the
/// length.
pub open spec fn replace_point(s: Seq<TransformEntry>, e: TransformEntry, i: int) -> int
    decreases s.len() - i,
{
    if i >= s.len() {
        s.len() as int
    } else if replace_before(e, s[i]) {
        i
    } else {
        replace_point(s, e, i + 1)
    }
}

/// The candidates of `s` in the order they are tried: a stable sort by
/// [`replace_before`], built by inserting each after all that do not come after it.
pub open spec fn replace_order(s: Seq<TransformEntry>) -> Seq<TransformEntry>
    decreases s.len(),
{
    if s.len() == 0 {
        Seq::empty()
    } else {
        let prev = replace_order(s.drop_last());
        prev.insert(replace_point(prev, s.last(), 0), s.last())
    }
}

/// No string sorts before itself.
pub proof fn lemma_str_less_irreflexive(a: Seq<char>)
    ensures
        !str_less(a, a),
    decreases a.len(),
{
    if a.len() > 0 {
        lemma_str_less_irreflexive(a.drop_first());
    }
}

/// Of two strings, at most one sorts before the other.
pub proof fn lemma_str_less_asymmetric(a: Seq<char>, b: Seq<char>)
    ensures
        str_less(a, b) ==> !str_less(b, a),
    decreases a.len(),
{
    if a.len() > 0 && b.len() > 0 && a[0] == b[0] {
        lemma_str_less_asymmetric(a.drop_first(), b.drop_first());
    }
}

/// The string order is transitive.
pub proof fn lemma_str_less_transitive(a: Seq<char>, b: Seq<char>, c: Seq<char>)
    requires
        str_less(a, b),
        str_less(b, c),
    ensures
        str_less(a, c),
    decreases a.len(),
{
    if a.len() > 0 && a[0] == b[0] && b[0] == c[0] {
        lemma_str_less_transitive(a.drop_first(), b.drop_first(), c.drop_first());
    }
}

/// `replace_before` is a strict order: asymmetric and transitive.
proof fn lemma_replace_before_order(a: TransformEntry, b: TransformEntry, c: TransformEntry)
    ensures
        replace_before(a, b) ==> !replace_before(b, a),
        replace_before(a, b) && replace_before(b, c) ==> replace_before(a, c),
{
    lemma_str_less_asymmetric(a.plugin_id.0@, b.plugin_id.0@);
    if replace_before(a, b) && replace_before(b, c) && a.priority == c.priority {
        lemma_str_less_transitive(a.plugin_id.0@, b.plugin_id.0@, c.plugin_id.0@);
    }
}

/// No later candidate of `s` is tried strictly before an earlier one.
pub open spec fn replace_sorted(s: Seq<TransformEntry>) -> bool {
    forall|i: int, j: int| 0 <= i < j < s.len() ==> !#[trigger] replace_before(s[j], s[i])
}

/// What `replace_point` finds: a position whose predecessors do not come after `e`,
/// and, short of the end, whose element `e` comes strictly before.
proof fn lemma_replace_point(s: Seq<TransformEntry>, e: TransformEntry, i: int)
    requires
        0 <= i <= s.len(),
    ensures
        i <= replace_point(s, e, i) <= s.len(),
        forall|k: int| i <= k < replace_point(s, e, i) ==> !#[trigger] replace_before(e, s[k]),
        replace_point(s, e, i) < s.len() ==> replace_before(e, s[replace_point(s, e, i)]),
    decreases s.len() - i,
{
    if i < s.len() && !replace_before(e, s[i]) {
        lemma_replace_point(s, e, i + 1);
    }
}

/// The order in which route-replace candidates are tried is a sort of them: it holds
/// the same candidates, and no candidate comes after one that it is tried before
/// (higher priority first, then the smaller plugin id).
pub proof fn law_replace_order_sorted(s: Seq<TransformEntry>)
    ensures
        replace_sorted(replace_order(s)),
        replace_order(s).to_multiset() == s.to_multiset(),
    decreases s.len(),
{
    broadcast use vstd::seq_lib::group_to_multiset_ensures;

    if s.len() > 0 {
        let prev = replace_order(s.drop_last());
        law_replace_order_sorted(s.drop_last());
        let e = s.last();
        let p = replace_point(prev, e, 0);
        lemma_replace_point(prev, e, 0);
        let r = prev.insert(p, e);
        assert forall|i: int, j: int| 0 <= i < j < r.len() implies !#[trigger] replace_before(
            r[j],
            r[i],
        ) by {
            if j < p {
                assert(r[i] == prev[i] && r[j] == prev[j]);
            } else if j == p {
                assert(r[i] == prev[i] && r[j] == e);
            } else if i > p {
                assert(r[i] == prev[i - 1] && r[j] == prev[j - 1]);
            } else if i == p {
                // e before prev[p]; prev[j-1] not before prev[p]
                assert(r[i] == e && r[j] == prev[j - 1]);
                lemma_replace_before_order(prev[j - 1], e, prev[p]);
                lemma_replace_before_order(e, prev[p], prev[j - 1]);
                if j - 1 > p {
                    assert(!replace_before(prev[j - 1], prev[p]));
                }
            } else {
                assert(r[i] == prev[i] && r[j] == prev[j - 1]);
            }
        }
        assert(s.drop_last().push(e) =~= s);
    }
}

/// Route transforms split by operation, each part in the registry's order, except
/// the route-replace candidates, which are in the order they are tried.
pub struct RoutePlan {
    pub inject_before: Vec<TransformEntry>,
    pub wrap: Vec<TransformEntry>,
    pub inject_after: Vec<TransformEntry>,
    pub replace: Vec<TransformEntry>,
}

/// Insert `e` into `v` before the first element it comes strictly before.
fn insert_candidate(v: &mut Vec<TransformEntry>, e: TransformEntry)
    ensures
        final(v)@ == old(v)@.insert(replace_point(old(v)@, e, 0), e),
{
    let mut i: usize = 0;
    while i < v.len()
        invariant
            0 <= i <= v@.len(),
            replace_point(v@, e, 0) == replace_point(v@, e, i as int),
        ensures
            replace_point(v@, e, 0) == i as int,
        decreases v@.len() - i,
    {
        let before = e.priority > v[i].priority || (e.priority == v[i].priority && string_less(
            e.plugin_id.0.as_str(),
            v[i].plugin_id.0.as_str(),
        ));
        if before {
            break;
        }
        i = i + 1;
    }
    v.insert(i, e);
}

/// Split the route transforms matching a path by operation.
pub fn plan_route_transforms(entries: &Vec<TransformEntry>) -> (p: RoutePlan)
    ensures
        p.inject_before@ == with_op(entries@, 0),
        p.wrap@ == with_op(entries@, 1),
        p.inject_after@ == with_op(entries@, 2),
        p.replace@ == replace_order(with_op(entries@, 3)),
{
    let mut plan = RoutePlan { inject_before: Vec::new(), wrap: Vec::new(), inject_after: Vec::new(), replace: Vec::new() };
    proof {
        assert(entries@.take(0) =~= Seq::<TransformEntry>::empty());
    }
    for i in 0..entries.len()
        invariant
            plan.inject_before@ == with_op(entries@.take(i as int), 0),
            plan.wrap@ == with_op(entries@.take(i as int), 1),
            plan.inject_after@ == with_op(entries@.take(i as int), 2),
            plan.replace@ == replace_order(with_op(entries@.take(i as int), 3)),
    {
        let e = &entries[i];
        proof {
            assert(entries@.take(i + 1).drop_last() =~= entries@.take(i as int));
            assert(entries@.take(i + 1).last() == entries@[i as int]);
            let w = with_op(entries@.take(i as int), 3);
            if route_op_code(entries@[i as int].op) == 3 {
                assert(w.push(entries@[i as int]).drop_last() =~= w);
            }
        }
        match e.op {
            TransformOp::InjectBefore => plan.inject_before.push(copy_entry(e)),
            TransformOp::Wrap => plan.wrap.push(copy_entry(e)),
            TransformOp::InjectAfter => plan.inject_after.push(copy_entry(e)),
            TransformOp::RouteReplace => insert_candidate(&mut plan.replace, copy_entry(e)),
            _ => {},
        }
    }
    proof {
        assert(entries@.take(entries@.len() as int) =~= entries@);
    }
    plan
}

/// One step of the route-wrap fold: the wrapper so far goes to the next wrap transform
/// as its original, and its answer becomes the wrapper; a failed or skipped call
/// keeps the wrapper as it was. The fold starts from the `__content__` placeholder.
pub fn wrap_step(current: PluginView, answer: Option<PluginView>) -> (next: PluginView)
    ensures
        match answer {
            Some(v) => next == v,
            None => next == current,
        },
{
    match answer {
        Some(v) => v,
        None => current,
    }
}

/// One route-replace candidate, tried in order: it counts only when the host's policy
/// approves it and the request reaches its plugin; then the plugin's answer, if the
/// call succeeded, replaces the route. The first candidate that gives a view wins.
pub fn replace_step(approved: bool, reachable: bool, answer: Option<PluginView>) -> (r: Option<PluginView>)
    ensures
        r == (if approved && reachable {
            answer
        } else {
            None
        }),
{
    if approved && reachable {
        answer
    } else {
        None
    }
}

// ── Hooks ───────────────────────────────────────────────────────────────────

/// The export that handles hook `name`: `hook_` and the name with `-` as `_`.
pub open spec fn hook_export(name: Seq<char>) -> Seq<char> {
    "hook_"@ + name.map_values(|c: char| if c == '-' { '_' } else { c })
}

/// `str::replace` of one character by a one-character string: every occurrence of
/// `from` becomes the character of `to`, as std documents it.
#[verifier::external_body]
pub(crate) fn replace_char(s: &str, from: char, to: &str) -> (r: String)
    requires
        to@.len() == 1,
    ensures
        r@ == s@.map_values(|c: char| if c == from { to@[0] } else { c }),
{
    s.replace(from, to)
}

/// The name of the export that handles hook `hook_name`.
pub fn hook_export_name(hook_name: &str) -> (r: String)
    ensures
        r@ == hook_export(hook_name@),
{
    proof {
        reveal_strlit("_");
    }
    let tail = replace_char(hook_name, '-', "_");
    concat("hook_", tail.as_str())
}

/// What running a hook chain does after one handler.
pub enum HookStep {
    /// Continue with this context.
    Next(serde_json::Value),
    /// The handler cancelled the hook: the chain stops.
    Stop { by: PluginId, reason: String },
    /// The call failed: continue with the context unchanged.
    Keep,
}

/// Decide what a hook chain does with `result`, the outcome of calling `plugin_id`'s
/// handler (`None` when the call failed).
pub fn hook_step(plugin_id: &PluginId, result: Option<HookResult>) -> (s: HookStep)
    ensures
        match result {
            Some(HookResult::Continue { context }) => s == HookStep::Next(context),
            Some(HookResult::Replace { context }) => s == HookStep::Next(context),
            Some(HookResult::Cancel { reason }) => s == HookStep::Stop { by: *plugin_id, reason },
            None => s is Keep,
        },
{
    match result {
        Some(HookResult::Continue { context }) => HookStep::Next(context),
        Some(HookResult::Replace { context }) => HookStep::Next(context),
        Some(HookResult::Cancel { reason }) => HookStep::Stop { by: copy_plugin_id(plugin_id), reason },
        None => HookStep::Keep,
    }
}

/// Whether a direct call (an interaction, a host-initiated call) may go to plugin
/// `plugin_id`: a plugin that is not loaded is not found, a disabled one refuses.
pub fn check_callable(plugin_id: &PluginId, plugin: Option<&LoadedPlugin>) -> (r: Result<(), PluginRuntimeError>)
    ensures
        match plugin {
            None => r == Err::<(), PluginRuntimeError>(PluginRuntimeError::PluginNotFound(*plugin_id)),
            Some(p) => if p.enabled {
                r is Ok
            } else {
                r == Err::<(), PluginRuntimeError>(PluginRuntimeError::PluginDisabled(*plugin_id))
            },
        },
{
    match plugin {
        None => Err(PluginRuntimeError::PluginNotFound(copy_plugin_id(plugin_id))),
        Some(p) => if p.enabled {
            Ok(())
        } else {
            Err(PluginRuntimeError::PluginDisabled(copy_plugin_id(plugin_id)))
        },
    }
}

/// Hooks and events reach loaded, enabled plugins.
pub fn reaches_enabled(plugin: Option<&LoadedPlugin>) -> (b: bool)
    ensures
        b == match plugin {
            Some(p) => p.enabled,
            None => false,
        },
{
    match plugin {
        Some(p) => p.enabled,
        None => false,
    }
}


// ── API route paths ─────────────────────────────────────────────────────────

/// One path segment in the router's notation: `:name` becomes `{name}`, any other
/// segment stays as it is.
pub open spec fn brace_segment(seg: Seq<char>) -> Seq<char> {
    if seg.len() > 0 && seg[0] == ':' {
        seq!['{'] + seg.subrange(1, seg.len() as int) + seq!['}']
    } else {
        seg
    }
}

/// The segments joined, with `sep` between each two.
pub open spec fn join_with(segs: Seq<Seq<char>>, sep: char) -> Seq<char>
    decreases segs.len(),
{
    if segs.len() == 0 {
        seq![]
    } else if segs.len() == 1 {
        segs[0]
    } else {
        join_with(segs.drop_last(), sep) + seq![sep] + segs.last()
    }
}

/// `path` with each `:name` segment written as `{name}`.
pub open spec fn braced_path(path: Seq<char>) -> Seq<char> {
    join_with(split_on(path, '/').map_values(|seg: Seq<char>| brace_segment(seg)), '/')
}

/// Appending a character to the last segment appends it to the joined text.
proof fn lemma_join_push_char(segs: Seq<Seq<char>>, last: Seq<char>, c: char, sep: char)
    ensures
        join_with(segs.push(last.push(c)), sep) == join_with(segs.push(last), sep).push(c),
{
    if segs.len() > 0 {
        assert(segs.push(last.push(c)).drop_last() =~= segs);
        assert(segs.push(last).drop_last() =~= segs);
        assert(join_with(segs, sep) + seq![sep] + last.push(c) =~= (join_with(segs, sep) + seq![sep]
            + last).push(c));
    }
}

/// Joining the segments of a left-to-right split of the first `n` characters gives
/// those characters back.
proof fn lemma_join_split_state(s: Seq<char>, sep: char, n: nat)
    requires
        n <= s.len(),
    ensures
        join_with(split_state(s, sep, n).0.push(split_state(s, sep, n).1), sep) == s.take(n as int),
    decreases n,
{
    if n == 0 {
        assert(s.take(0) =~= Seq::<char>::empty());
    } else {
        lemma_join_split_state(s, sep, (n - 1) as nat);
        let prev = split_state(s, sep, (n - 1) as nat);
        assert(s.take(n as int) =~= s.take(n - 1).push(s[n - 1]));
        if s[n - 1] == sep {
            let segs = prev.0.push(prev.1);
            assert(segs.push(Seq::<char>::empty()).drop_last() =~= segs);
            assert(join_with(segs, sep) + seq![sep] + Seq::<char>::empty() =~= join_with(segs, sep).push(
                sep,
            ));
        } else {
            lemma_join_push_char(prev.0, prev.1, s[n - 1], sep);
        }
    }
}

/// Splitting on a character and joining with it again gives the text back.
pub proof fn law_join_split(s: Seq<char>, sep: char)
    ensures
        join_with(split_on(s, sep), sep) == s,
{
    lemma_join_split_state(s, sep, s.len());
    assert(s.take(s.len() as int) =~= s);
}

/// A path none of whose segments starts with `:` keeps its notation in the router.
pub proof fn law_literal_path_unchanged(path: Seq<char>)
    requires
        forall|i: int|
            0 <= i < split_on(path, '/').len() ==> !(#[trigger] split_on(path, '/')[i].len() > 0
                && split_on(path, '/')[i][0] == ':'),
    ensures
        braced_path(path) == path,
{
    let segs = split_on(path, '/');
    assert(segs.map_values(|seg: Seq<char>| brace_segment(seg)) =~= segs);
    law_join_split(path, '/');
}

/// One segment in the router's notation.
fn brace_segment_text(seg: &str) -> (r: String)
    ensures
        r@ == brace_segment(seg@),
{
    let n = seg.unicode_len();
    if n > 0 && seg.get_char(0) == ':' {
        let mut r = String::from_str("{");
        r.append(seg.substring_char(1, n));
        r.append("}");
        proof {
            reveal_strlit("{");
            reveal_strlit("}");
        }
        r
    } else {
        seg.to_owned()
    }
}

/// Converts a declared API path such as `/api/notes/:id` to the router's notation
/// `/api/notes/{id}`: every segment that starts with `:` is wrapped in braces.
pub fn colon_params_to_braces(path: &str) -> (r: String)
    ensures
        r@ == braced_path(path@),
{
    let segs = split_str(path, '/');
    let ghost mapped = split_on(path@, '/').map_values(|seg: Seq<char>| brace_segment(seg));
    let mut r = String::new();
    for k in 0..segs.len()
        invariant
            segs@.len() == split_on(path@, '/').len(),
            forall|i: int| 0 <= i < segs@.len() ==> #[trigger] segs@[i]@ == split_on(path@, '/')[i],
            mapped == split_on(path@, '/').map_values(|seg: Seq<char>| brace_segment(seg)),
            r@ == join_with(mapped.take(k as int), '/'),
    {
        let piece = brace_segment_text(segs[k].as_str());
        assert(mapped.take(k + 1).drop_last() == mapped.take(k as int));
        if k > 0 {
            r.append("/");
            proof {
                reveal_strlit("/");
            }
        }
        r.append(piece.as_str());
    }
    assert(mapped.take(segs.len() as int) == mapped);
    r
}


// ── Compatibility laws ──────────────────────────────────────────────────────

/// A manifest is compatible with every client whose protocol version and app
/// version are each at least the manifest's minimums, and with no other client;
/// a client that meets a manifest's minimums and then upgrades either version
/// still meets them.
pub proof fn law_compatibility(m: PluginManifest, c: ClientCapabilities, newer: ClientCapabilities)
    ensures
        (m.min_protocol_version <= c.protocol_version && m.min_app_version <= c.app_version)
            ==> compatible(m, c),
        !compatible(m, c) ==> (c.protocol_version < m.min_protocol_version || c.app_version
            < m.min_app_version),
        compatible(m, c) && c.protocol_version <= newer.protocol_version && c.app_version
            <= newer.app_version ==> compatible(m, newer),
        m.min_protocol_version == 0 && m.min_app_version == 0 ==> compatible(m, c),
{
}

/// An enabled plugin whose minimums the client meets is compatible with the client
/// and reachable by a render call, so `slot_step` renders it.
pub proof fn law_compatible_enabled_plugin_renders(p: LoadedPlugin, c: ClientCapabilities)
    requires
        p.enabled,
        p.manifest.min_protocol_version <= c.protocol_version,
        p.manifest.min_app_version <= c.app_version,
    ensures
        compatible(p.manifest, c),
        reachable(Some(p), c),
{
}

} // verus!
