//! Dependency graph of installed plugins: which plugin depends on which, whether the
//! versions installed meet the declared constraints, and whether the dependencies
//! form a cycle (which is forbidden).

use vstd::prelude::*;
use vstd::set_lib::{lemma_int_range, lemma_len_subset, lemma_subset_equality, set_int_range};

use crate::errors::InstallError;
use crate::keymap::{has_key_at, keys_distinct, lemma_map_of, map_of, KeyMap, MapKey};
use crate::protocol::{copy_plugin_id, PluginDependency, PluginId};
use crate::semver::{semver_satisfies, version_satisfies};

verus! {

broadcast use vstd::seq_lib::lemma_seq_contains_after_push;

/// Dependency metadata of one loaded plugin.
#[derive(Debug, Clone)]
pub struct PluginDepInfo {
    /// SemVer-parseable version, e.g. `"1.5.0"`.
    pub version: String,
    /// The dependencies that its manifest declares.
    pub requires: Vec<PluginDependency>,
}

// ── The model ───────────────────────────────────────────────────────────────

/// The graph as a map from plugin id to its dependency metadata.
pub type DepModel = Map<Seq<char>, PluginDepInfo>;

/// `a` declares a dependency on `b`, and both are installed.
pub open spec fn depends_on(g: DepModel, a: Seq<char>, b: Seq<char>) -> bool {
    &&& g.contains_key(a)
    &&& g.contains_key(b)
    &&& exists|d: int| 0 <= d < g[a].requires@.len() && (#[trigger] g[a].requires@[d]).id.0@ == b
}

/// Every plugin of `s` is installed and is depended on by some plugin of `s`: no
/// plugin of `s` can come after all the plugins that depend on it.
pub open spec fn self_supported(g: DepModel, s: Set<Seq<char>>) -> bool {
    &&& forall|k: Seq<char>| #[trigger] s.contains(k) ==> g.contains_key(k)
    &&& forall|k: Seq<char>| #[trigger] s.contains(k) ==> exists|j: Seq<char>| s.contains(j) && #[trigger] depends_on(g, j, k)
}

/// The dependencies form no cycle: only the empty set of plugins supports itself.
pub open spec fn acyclic(g: DepModel) -> bool {
    forall|s: Set<Seq<char>>| #[trigger] self_supported(g, s) ==> s == Set::<Seq<char>>::empty()
}

/// Plugin `k` lies on a dependency cycle, or is depended on, directly or through
/// others, by a plugin that does: it belongs to a set of plugins that supports itself.
pub open spec fn cycle_bound(g: DepModel, k: Seq<char>) -> bool {
    exists|s: Set<Seq<char>>| #[trigger] self_supported(g, s) && s.contains(k)
}

/// Dependency `d` is met in `g`: its target is installed at a version that satisfies
/// its constraint.
pub open spec fn dep_met(g: DepModel, d: PluginDependency) -> bool {
    g.contains_key(d.id.0@) && semver_satisfies(d.version.0@, g[d.id.0@].version@)
}

/// `(index, met)` for each optional dependency among the first `n` of `deps`, in order.
pub open spec fn optional_status(g: DepModel, deps: Seq<PluginDependency>, n: int) -> Seq<(usize, bool)>
    decreases n,
{
    if n <= 0 {
        Seq::empty()
    } else {
        let prev = optional_status(g, deps, n - 1);
        if deps[n - 1].required {
            prev
        } else {
            prev.push(((n - 1) as usize, dep_met(g, deps[n - 1])))
        }
    }
}

/// Plugin `k` declares a dependency on `target` that is required (`required == true`)
/// or optional (`required == false`).
pub open spec fn declares_dep(g: DepModel, k: Seq<char>, target: Seq<char>, required: bool) -> bool {
    exists|d: int|
        0 <= d < g[k].requires@.len() && (#[trigger] g[k].requires@[d]).required == required
            && g[k].requires@[d].id.0@ == target
}

/// The ids of `ids` are pairwise distinct.
pub open spec fn distinct_ids(ids: Seq<PluginId>) -> bool {
    forall|i: int, j: int|
        0 <= i < ids.len() && 0 <= j < ids.len() && i != j ==> (#[trigger] ids[i]).0@ != (
        #[trigger] ids[j]).0@
}

/// `ids` lists some plugin whose id is `k`.
pub open spec fn lists_id(ids: Seq<PluginId>, k: Seq<char>) -> bool {
    exists|i: int| 0 <= i < ids.len() && (#[trigger] ids[i]).0@ == k
}

/// The conflict reported for `dep` of `plugin` when `found` does not satisfy its constraint.
pub open spec fn is_version_conflict(
    e: InstallError,
    plugin: PluginId,
    dep: PluginId,
    required: Seq<char>,
    found: Seq<char>,
) -> bool {
    e matches InstallError::DependencyVersionConflict { plugin: p, dependency: d, required: r, found: f }
        && p == plugin && d == dep && r@ == required && f@ == found
}

/// Dependency `d` is optional, or met in `g`.
pub open spec fn required_met(g: DepModel, d: PluginDependency) -> bool {
    d.required ==> dep_met(g, d)
}

/// The error reported for the unmet required dependency `d` of `plugin`: missing, or a
/// version conflict with the version installed.
pub open spec fn unmet_error(g: DepModel, plugin: PluginId, d: PluginDependency, e: InstallError) -> bool {
    if !g.contains_key(d.id.0@) {
        e matches InstallError::DependencyMissing { plugin: p, dependency: dd } && p == plugin && dd == d.id
    } else {
        is_version_conflict(e, plugin, d.id, d.version.0@, g[d.id.0@].version@)
    }
}

// ── Version constraints ─────────────────────────────────────────────────────

/// The answer to a version check whose outcome `satisfied` is known: nothing, or the
/// conflict between `constraint` and `target_version`.
pub fn version_check_outcome(
    plugin: &PluginId,
    dep_id: &PluginId,
    constraint: &str,
    target_version: &str,
    satisfied: bool,
) -> (r: Result<(), InstallError>)
    ensures
        satisfied ==> r is Ok,
        !satisfied ==> (r matches Err(e) && is_version_conflict(
            e,
            *plugin,
            *dep_id,
            constraint@,
            target_version@,
        )),
{
    if satisfied {
        Ok(())
    } else {
        Err(
            InstallError::DependencyVersionConflict {
                plugin: copy_plugin_id(plugin),
                dependency: copy_plugin_id(dep_id),
                required: constraint.to_owned(),
                found: target_version.to_owned(),
            },
        )
    }
}

/// Check that `target_version` satisfies the SemVer `constraint`; a constraint or a
/// version that does not parse is a conflict too.
pub fn check_version_match(
    plugin: &PluginId,
    dep_id: &PluginId,
    constraint: &str,
    target_version: &str,
) -> (r: Result<(), InstallError>)
    ensures
        semver_satisfies(constraint@, target_version@) ==> r is Ok,
        !semver_satisfies(constraint@, target_version@) ==> (r matches Err(e) && is_version_conflict(
            e,
            *plugin,
            *dep_id,
            constraint@,
            target_version@,
        )),
{
    let ok = version_satisfies(constraint, target_version);
    version_check_outcome(plugin, dep_id, constraint, target_version, ok)
}

// ── Positions in the entry sequence ─────────────────────────────────────────

/// Entry `i` declares a dependency on the plugin of entry `j`.
spec fn edge(s: Seq<(PluginId, PluginDepInfo)>, i: int, j: int) -> bool {
    exists|d: int|
        0 <= d < s[i].1.requires@.len() && (#[trigger] s[i].1.requires@[d]).id.0@ == s[j].0.0@
}

/// An edge between entries is a dependency between their plugins.
proof fn lemma_edge_depends(s: Seq<(PluginId, PluginDepInfo)>, i: int, j: int)
    requires
        keys_distinct(s),
        0 <= i < s.len(),
        0 <= j < s.len(),
        edge(s, i, j),
    ensures
        depends_on(map_of(s), s[i].0.0@, s[j].0.0@),
{
    lemma_map_of(s);
    assert(map_of(s)[s[i].0.key_view()] == s[i].1);
    assert(map_of(s).contains_key(s[j].0.key_view()));
    let d = choose|d: int|
        0 <= d < s[i].1.requires@.len() && (#[trigger] s[i].1.requires@[d]).id.0@ == s[j].0.0@;
    assert(map_of(s)[s[i].0.0@].requires@[d].id.0@ == s[j].0.0@);
}

/// A dependency on the plugin of entry `j` comes from an edge of the entry of the
/// depending plugin.
proof fn lemma_depends_edge(s: Seq<(PluginId, PluginDepInfo)>, a: Seq<char>, j: int) -> (i: int)
    requires
        keys_distinct(s),
        0 <= j < s.len(),
        depends_on(map_of(s), a, s[j].0.0@),
    ensures
        0 <= i < s.len(),
        s[i].0.0@ == a,
        edge(s, i, j),
{
    lemma_map_of(s);
    let i = choose|i: int| has_key_at(s, a, i);
    assert(map_of(s)[s[i].0.key_view()] == s[i].1);
    let d = choose|d: int|
        0 <= d < map_of(s)[a].requires@.len() && (#[trigger] map_of(s)[a].requires@[d]).id.0@
            == s[j].0.0@;
    assert(s[i].1.requires@[d].id.0@ == s[j].0.0@);
    i
}

/// Every installed plugin is the plugin of some entry.
proof fn lemma_key_entry(s: Seq<(PluginId, PluginDepInfo)>, k: Seq<char>) -> (i: int)
    requires
        keys_distinct(s),
        map_of(s).contains_key(k),
    ensures
        0 <= i < s.len(),
        s[i].0.0@ == k,
{
    lemma_map_of(s);
    choose|i: int| has_key_at(s, k, i)
}

/// Number of entries before `k`, not in `done`, whose successor row holds `j`.
spec fn pending(succ: Seq<Vec<usize>>, done: Set<int>, j: usize, k: int) -> nat
    decreases k,
{
    if k <= 0 {
        0
    } else {
        pending(succ, done, j, k - 1) + if !done.contains(k - 1) && succ[k - 1]@.contains(j) {
            1nat
        } else {
            0nat
        }
    }
}

proof fn lemma_pending_bound(succ: Seq<Vec<usize>>, done: Set<int>, j: usize, k: int)
    requires
        k >= 0,
    ensures
        pending(succ, done, j, k) <= k,
    decreases k,
{
    if k > 0 {
        lemma_pending_bound(succ, done, j, k - 1);
    }
}

/// Marking `u` done removes its contribution, and only that.
proof fn lemma_pending_insert(succ: Seq<Vec<usize>>, done: Set<int>, j: usize, u: int, k: int)
    requires
        k >= 0,
        !done.contains(u),
    ensures
        pending(succ, done.insert(u), j, k) + (if 0 <= u < k && succ[u]@.contains(j) {
            1int
        } else {
            0int
        }) == pending(succ, done, j, k),
    decreases k,
{
    if k > 0 {
        lemma_pending_insert(succ, done, j, u, k - 1);
    }
}

/// The count is positive exactly when some entry not done has `j` in its row.
proof fn lemma_pending_witness(succ: Seq<Vec<usize>>, done: Set<int>, j: usize, k: int)
    requires
        k >= 0,
    ensures
        pending(succ, done, j, k) > 0 <==> exists|i: int|
            0 <= i < k && !done.contains(i) && (#[trigger] succ[i])@.contains(j),
    decreases k,
{
    if k > 0 {
        lemma_pending_witness(succ, done, j, k - 1);
        if !done.contains(k - 1) && succ[k - 1]@.contains(j) {
            assert(succ[k - 1]@.contains(j));
        }
    }
}

/// Rows of successors: row `i` lists, once each, the entries that entry `i` depends on.
spec fn succ_ok(s: Seq<(PluginId, PluginDepInfo)>, succ: Seq<Vec<usize>>, n: int) -> bool {
    &&& rows_ok(succ, n)
    &&& forall|i: int, j: usize|
        0 <= i < n && j < n ==> ((#[trigger] succ[i]@.contains(j)) <==> edge(s, i, j as int))
}

/// Rows of successors that hold positions below `n`, each once.
spec fn rows_ok(succ: Seq<Vec<usize>>, n: int) -> bool {
    &&& n <= usize::MAX
    &&& succ.len() == n
    &&& forall|i: int| 0 <= i < n ==> (#[trigger] succ[i])@.no_duplicates()
    &&& forall|i: int, p: int|
        0 <= i < n && 0 <= p < succ[i]@.len() ==> (#[trigger] succ[i]@[p]) < n
}

/// Whether `x` occurs in `v`.
fn contains_index(v: &Vec<usize>, x: usize) -> (b: bool)
    ensures
        b == v@.contains(x),
{
    for i in 0..v.len()
        invariant
            forall|k: int| 0 <= k < i ==> v@[k] != x,
    {
        if v[i] == x {
            return true;
        }
    }
    false
}

/// The positions of the entries that `deps` names, each once.
fn dependency_positions(nodes: &KeyMap<PluginId, PluginDepInfo>, deps: &Vec<PluginDependency>) -> (row: Vec<usize>)
    requires
        nodes.wf(),
    ensures
        row@.no_duplicates(),
        forall|p: int| 0 <= p < row@.len() ==> row@[p] < nodes.entries().len(),
        forall|j: usize|
            j < nodes.entries().len() ==> (#[trigger] row@.contains(j) <==> exists|d: int|
                0 <= d < deps@.len() && (#[trigger] deps@[d]).id.0@
                    == nodes.entries()[j as int].0.0@),
{
    let mut row: Vec<usize> = Vec::new();
    for d in 0..deps.len()
        invariant
            nodes.wf(),
            row@.no_duplicates(),
            forall|p: int| 0 <= p < row@.len() ==> row@[p] < nodes.entries().len(),
            forall|j: usize|
                j < nodes.entries().len() ==> (#[trigger] row@.contains(j) <==> exists|e: int|
                    0 <= e < d && (#[trigger] deps@[e]).id.0@ == nodes.entries()[j as int].0.0@),
    {
        let ghost es = nodes.entries();
        let ghost old_row = row@;
        match nodes.position(deps[d].id.0.as_str()) {
            Some(j0) => {
                if !contains_index(&row, j0) {
                    row.push(j0);
                }
                proof {
                    assert(es[j0 as int].0.0@ == deps@[d as int].id.0@);
                    assert forall|j: usize| j < es.len() implies (#[trigger] row@.contains(j)
                        <==> exists|e: int|
                        0 <= e < d + 1 && (#[trigger] deps@[e]).id.0@ == es[j as int].0.0@) by {
                        if j == j0 {
                            assert(row@.contains(j0)) by {
                                if !old_row.contains(j0) {
                                    assert(row@[row@.len() - 1] == j0);
                                }
                            }
                            assert(deps@[d as int].id.0@ == es[j as int].0.0@);
                        } else {
                            assert(es[j as int].0.key_view() != es[j0 as int].0.key_view());
                            if row@.contains(j) {
                                let p = choose|p: int| #![auto] 0 <= p < row@.len() && row@[p] == j;
                                if p < old_row.len() {
                                    assert(old_row[p] == j);
                                }
                            }
                            if old_row.contains(j) {
                                let p = choose|p: int| #![auto] 0 <= p < old_row.len() && old_row[p] == j;
                                assert(row@[p] == j);
                            }
                        }
                    }
                }
            },
            None => {
                proof {
                    assert forall|j: usize| j < es.len() implies (#[trigger] row@.contains(j)
                        <==> exists|e: int|
                        0 <= e < d + 1 && (#[trigger] deps@[e]).id.0@ == es[j as int].0.0@) by {
                        assert(es[j as int].0.key_view() != deps@[d as int].id.0@);
                    }
                }
            },
        }
    }
    row
}

/// The state of the search: the in-degree of each entry counts its dependents not
/// done, and the stack holds, once each, exactly the entries not done with none left.
spec fn kahn_inv(
    succ: Seq<Vec<usize>>,
    indeg: Seq<usize>,
    done: Set<int>,
    stack: Seq<usize>,
    n: int,
) -> bool {
    &&& indeg.len() == n
    &&& done.subset_of(set_int_range(0, n))
    &&& forall|j: int| 0 <= j < n ==> #[trigger] indeg[j] == pending(succ, done, j as usize, n)
    &&& stack.no_duplicates()
    &&& forall|p: int|
        0 <= p < stack.len() ==> (#[trigger] stack[p]) < n && !done.contains(stack[p] as int)
            && indeg[stack[p] as int] == 0
    &&& forall|j: int|
        0 <= j < n && !done.contains(j) && #[trigger] indeg[j] == 0 ==> stack.contains(j as usize)
    &&& forall|j: int| 0 <= j < n && done.contains(j) ==> #[trigger] indeg[j] == 0
}

/// No set of plugins that supports itself holds a plugin whose entry is done.
spec fn done_unsupported(g: DepModel, s: Seq<(PluginId, PluginDepInfo)>, done: Set<int>) -> bool {
    forall|ss: Set<Seq<char>>, i: int|
        #[trigger] self_supported(g, ss) && #[trigger] done.contains(i) ==> !ss.contains(s[i].0.0@)
}

/// An entry none of whose dependents is left can be marked done: no self-supporting
/// set can hold it.
proof fn lemma_mark_done(
    s: Seq<(PluginId, PluginDepInfo)>,
    succ: Seq<Vec<usize>>,
    done: Set<int>,
    u: usize,
)
    requires
        keys_distinct(s),
        succ_ok(s, succ, s.len() as int),
        u < s.len(),
        pending(succ, done, u, s.len() as int) == 0,
        done_unsupported(map_of(s), s, done),
    ensures
        done_unsupported(map_of(s), s, done.insert(u as int)),
{
    let g = map_of(s);
    let n = s.len() as int;
    lemma_pending_witness(succ, done, u, n);
    assert forall|ss: Set<Seq<char>>, i: int|
        #[trigger] self_supported(g, ss) && #[trigger] done.insert(u as int).contains(i) implies !ss.contains(
        s[i].0.0@,
    ) by {
        if i == u && ss.contains(s[i].0.0@) {
            let k = choose|k: Seq<char>| ss.contains(k) && #[trigger] depends_on(g, k, s[i].0.0@);
            let i2 = lemma_depends_edge(s, k, i);
            assert(succ[i2]@.contains(u));
            assert(done.contains(i2));
            assert(self_supported(g, ss) && done.contains(i2));
        }
    }
}

/// With the stack empty, the entries not done form a set that supports itself.
proof fn lemma_rest_supported(
    s: Seq<(PluginId, PluginDepInfo)>,
    succ: Seq<Vec<usize>>,
    indeg: Seq<usize>,
    done: Set<int>,
)
    requires
        keys_distinct(s),
        succ_ok(s, succ, s.len() as int),
        kahn_inv(succ, indeg, done, Seq::empty(), s.len() as int),
    ensures
        self_supported(map_of(s), rest_of(s, done)),
{
    let g = map_of(s);
    let n = s.len() as int;
    let rest = rest_of(s, done);
    lemma_map_of(s);
    assert forall|k: Seq<char>| #[trigger] rest.contains(k) implies g.contains_key(k) by {
        let i = choose|i: int| 0 <= i < n && !done.contains(i) && #[trigger] s[i].0.0@ == k;
        assert(g.contains_key(s[i].0.key_view()));
    }
    assert forall|k: Seq<char>| #[trigger] rest.contains(k) implies exists|j: Seq<char>|
        rest.contains(j) && #[trigger] depends_on(g, j, k) by {
        let i = choose|i: int| 0 <= i < n && !done.contains(i) && #[trigger] s[i].0.0@ == k;
        let iu = i as usize;
        assert(indeg[i] != 0) by {
            if indeg[i] == 0 {
                assert(Seq::<usize>::empty().contains(iu));
            }
        }
        lemma_pending_witness(succ, done, iu, n);
        let i2 = choose|i2: int| 0 <= i2 < n && !done.contains(i2) && (#[trigger] succ[i2])@.contains(iu);
        assert(succ[i2]@.contains(iu));
        assert(edge(s, i2, i));
        lemma_edge_depends(s, i2, i);
        assert(rest.contains(s[i2].0.0@));
    }
}

/// The plugins of the entries not in `done`.
spec fn rest_of(s: Seq<(PluginId, PluginDepInfo)>, done: Set<int>) -> Set<Seq<char>> {
    Set::new(|k: Seq<char>| exists|i: int| 0 <= i < s.len() && !done.contains(i) && #[trigger] s[i].0.0@ == k)
}

/// The successor rows of all entries.
fn successor_rows(nodes: &KeyMap<PluginId, PluginDepInfo>) -> (succ: Vec<Vec<usize>>)
    requires
        nodes.wf(),
    ensures
        succ_ok(nodes.entries(), succ@, nodes.entries().len() as int),
{
    let ghost s = nodes.entries();
    let n = nodes.len();
    let mut succ: Vec<Vec<usize>> = Vec::new();
    for i in 0..n
        invariant
            n == s.len(),
            s == nodes.entries(),
            nodes.wf(),
            succ@.len() == i,
            forall|a: int| 0 <= a < i ==> (#[trigger] succ@[a])@.no_duplicates(),
            forall|a: int, p: int|
                0 <= a < i && 0 <= p < succ@[a]@.len() ==> (#[trigger] succ@[a]@[p]) < n,
            forall|a: int, j: usize|
                0 <= a < i && j < n ==> ((#[trigger] succ@[a]@.contains(j)) <==> edge(s, a, j as int)),
    {
        let row = dependency_positions(nodes, &nodes.entry_at(i).1.requires);
        succ.push(row);
        proof {
            assert forall|a: int, j: usize|
                0 <= a < i + 1 && j < n implies ((#[trigger] succ@[a]@.contains(j)) <==> edge(s, a, j as int)) by {
                if a == i {
                    if edge(s, a, j as int) {
                        let d = choose|d: int|
                            0 <= d < s[a].1.requires@.len() && (#[trigger] s[a].1.requires@[d]).id.0@ == s[j as int].0.0@;
                        assert(s[a].1.requires@[d].id.0@ == s[j as int].0.0@);
                    }
                }
            }
        }
    }
    succ
}

/// The number of dependents of each entry.
fn in_degrees(succ: &Vec<Vec<usize>>) -> (indeg: Vec<usize>)
    requires
        rows_ok(succ@, succ@.len() as int),
    ensures
        indeg@.len() == succ@.len(),
        forall|j: int|
            0 <= j < succ@.len() ==> #[trigger] indeg@[j] == pending(succ@, Set::empty(), j as usize, succ@.len() as int),
{
    let n = succ.len();
    let ghost done = Set::<int>::empty();
    let mut indeg: Vec<usize> = Vec::new();
    for i in 0..n
        invariant
            indeg@.len() == i,
            forall|j: int| 0 <= j < i ==> indeg@[j] == 0,
    {
        indeg.push(0);
    }
    for i in 0..n
        invariant
            n == succ@.len(),
            rows_ok(succ@, n as int),
            done == Set::<int>::empty(),
            indeg@.len() == n,
            forall|j: int| 0 <= j < n ==> #[trigger] indeg@[j] == pending(succ@, done, j as usize, i as int),
    {
        let row = &succ[i];
        for p in 0..row.len()
            invariant
                n == succ@.len(),
                rows_ok(succ@, n as int),
                done == Set::<int>::empty(),
                *row == succ@[i as int],
                i < n,
                indeg@.len() == n,
                forall|j: int| 0 <= j < n ==> #[trigger] indeg@[j] == pending(succ@, done, j as usize, i as int)
                    + if row@.take(p as int).contains(j as usize) { 1int } else { 0int },
        {
            let j = row[p];
            proof {
                lemma_pending_bound(succ@, done, j, i as int);
                assert(!row@.take(p as int).contains(j)) by {
                    if row@.take(p as int).contains(j) {
                        let q = choose|q: int| 0 <= q < p && row@.take(p as int)[q] == j;
                        assert(row@[q] == row@[p as int]);
                    }
                }
                assert(succ@[i as int]@[p as int] < n);
                assert(row@.take(p + 1) =~= row@.take(p as int).push(j));
            }
            let ghost before = indeg@;
            indeg.set(j, indeg[j] + 1);
            proof {
                assert forall|j2: int| 0 <= j2 < n implies #[trigger] indeg@[j2] == pending(succ@, done, j2 as usize, i as int)
                    + if row@.take(p + 1).contains(j2 as usize) { 1int } else { 0int } by {
                    assert(row@.take(p + 1).contains(j2 as usize) == (row@.take(p as int).contains(j2 as usize) || j2 == j as int));
                    if j2 != j as int {
                        assert(indeg@[j2] == before[j2]);
                    }
                }
            }
        }
        proof {
            assert(row@.take(row@.len() as int) =~= row@);
            assert forall|j: int| 0 <= j < n implies #[trigger] indeg@[j] == pending(succ@, done, j as usize, i + 1) by {
                assert(pending(succ@, done, j as usize, i + 1) == pending(succ@, done, j as usize, i as int) + if !done.contains(i as int) && succ@[i as int]@.contains(j as usize) { 1nat } else { 0nat });
                assert(row@.take(row@.len() as int).contains(j as usize) == succ@[i as int]@.contains(j as usize));
                assert(!done.contains(i as int));
            }
        }
    }
    indeg
}

/// The entries with no dependent, once each.
fn sources(indeg: &Vec<usize>) -> (stack: Vec<usize>)
    ensures
        stack@.no_duplicates(),
        forall|p: int| 0 <= p < stack@.len() ==> (#[trigger] stack@[p]) < indeg@.len() && indeg@[stack@[p] as int] == 0,
        forall|a: int| 0 <= a < indeg@.len() && #[trigger] indeg@[a] == 0 ==> stack@.contains(a as usize),
{
    let mut stack: Vec<usize> = Vec::new();
    for j in 0..indeg.len()
        invariant
            stack@.no_duplicates(),
            forall|p: int| 0 <= p < stack@.len() ==> (#[trigger] stack@[p]) < j && indeg@[stack@[p] as int] == 0,
            forall|a: int| 0 <= a < j && #[trigger] indeg@[a] == 0 ==> stack@.contains(a as usize),
    {
        let ghost before = stack@;
        if indeg[j] == 0 {
            stack.push(j);
        }
        proof {
            assert forall|a: int| 0 <= a < j + 1 && #[trigger] indeg@[a] == 0 implies stack@.contains(a as usize) by {
                if a < j {
                    assert(before.contains(a as usize));
                } else {
                    assert(stack@[stack@.len() - 1] == j);
                }
            }
        }
    }
    stack
}

/// Mark `u` done: each entry that `u` depends on loses a dependent, and those left
/// with none go on the stack.
fn release(
    succ: &Vec<Vec<usize>>,
    u: usize,
    indeg: &mut Vec<usize>,
    stack: &mut Vec<usize>,
    Ghost(done): Ghost<Set<int>>,
)
    requires
        rows_ok(succ@, succ@.len() as int),
        u < succ@.len(),
        !done.contains(u as int),
        kahn_inv(succ@, old(indeg)@, done, old(stack)@.push(u), succ@.len() as int),
    ensures
        kahn_inv(succ@, final(indeg)@, done.insert(u as int), final(stack)@, succ@.len() as int),
{
    let n = succ.len();
    let ghost nd = done.insert(u as int);
    let ghost st0 = stack@;
    let row = &succ[u];
    proof {
        let full = st0.push(u);
        assert(full[full.len() - 1] == u);
        assert forall|j: int| 0 <= j < n implies #[trigger] indeg@[j] == pending(succ@, nd, j as usize, n as int)
            + if row@.skip(0).contains(j as usize) { 1int } else { 0int } by {
            lemma_pending_insert(succ@, done, j as usize, u as int, n as int);
            assert(row@.skip(0) =~= row@);
        }
        assert(!row@.contains(u)) by {
            lemma_pending_witness(succ@, done, u, n as int);
            if row@.contains(u) {
                assert(succ@[u as int]@.contains(u));
            }
        }
        assert forall|q: int| 0 <= q < st0.len() implies #[trigger] st0[q] < n && !nd.contains(st0[q] as int)
            && indeg@[st0[q] as int] == 0 by {
            assert(full[q] == st0[q]);
            assert(full.no_duplicates());
            assert(st0[q] != full[full.len() - 1]);
        }
        assert forall|j: int| 0 <= j < n && !nd.contains(j) && #[trigger] indeg@[j] == 0 implies st0.contains(j as usize) by {
            assert(full.contains(j as usize));
        }
        assert(st0.no_duplicates()) by {
            assert forall|a: int, b: int| 0 <= a < b < st0.len() implies st0[a] != st0[b] by {
                assert(full[a] == st0[a] && full[b] == st0[b]);
            }
        }
    }
    for p in 0..row.len()
        invariant
            n == succ@.len(),
            rows_ok(succ@, n as int),
            *row == succ@[u as int],
            u < n,
            nd == done.insert(u as int),
            !row@.contains(u),
            indeg@.len() == n,
            nd.subset_of(set_int_range(0, n as int)),
            forall|j: int| 0 <= j < n ==> #[trigger] indeg@[j] == pending(succ@, nd, j as usize, n as int)
                + if row@.skip(p as int).contains(j as usize) { 1int } else { 0int },
            stack@.no_duplicates(),
            forall|q: int|
                0 <= q < stack@.len() ==> (#[trigger] stack@[q]) < n && !nd.contains(stack@[q] as int)
                    && indeg@[stack@[q] as int] == 0,
            forall|j: int|
                0 <= j < n && !nd.contains(j) && #[trigger] indeg@[j] == 0 ==> stack@.contains(j as usize),
            forall|j: int| 0 <= j < n && nd.contains(j) ==> #[trigger] indeg@[j] == 0,
    {
        let j = row[p];
        let ghost t0 = row@.skip(p as int);
        let ghost t1 = row@.skip(p + 1);
        proof {
            assert(succ@[u as int]@[p as int] < n);
            assert(t0[0] == j);
            assert(t0.contains(j));
            assert(!t1.contains(j)) by {
                if t1.contains(j) {
                    let q = choose|q: int| 0 <= q < t1.len() && t1[q] == j;
                    assert(row@[p + 1 + q] == row@[p as int]);
                }
            }
            assert forall|x: usize| x != j implies t0.contains(x) == t1.contains(x) by {
                if t0.contains(x) {
                    let q = choose|q: int| 0 <= q < t0.len() && t0[q] == x;
                    assert(q != 0);
                    assert(t1[q - 1] == x);
                }
                if t1.contains(x) {
                    let q = choose|q: int| 0 <= q < t1.len() && t1[q] == x;
                    assert(t0[q + 1] == x);
                }
            }
            assert(j != u) by {
                assert(row@[p as int] == j);
            }
        }
        let ghost before = stack@;
        indeg.set(j, indeg[j] - 1);
        if indeg[j] == 0 {
            stack.push(j);
        }
        proof {
            assert forall|j2: int|
                0 <= j2 < n && !nd.contains(j2) && #[trigger] indeg@[j2] == 0 implies stack@.contains(j2 as usize) by {
                if j2 == j as int {
                    assert(stack@[stack@.len() - 1] == j);
                } else {
                    assert(before.contains(j2 as usize));
                }
            }
        }
    }
    proof {
        assert(row@.skip(row@.len() as int) =~= Seq::<usize>::empty());
    }
}

/// The ids of the entries whose in-degree is not zero, in entry order.
fn left_over(nodes: &KeyMap<PluginId, PluginDepInfo>, indeg: &Vec<usize>) -> (cycle: Vec<PluginId>)
    requires
        nodes.wf(),
        indeg@.len() == nodes.entries().len(),
    ensures
        distinct_ids(cycle@),
        forall|k: Seq<char>|
            lists_id(cycle@, k) <==> exists|i: int|
                0 <= i < indeg@.len() && indeg@[i] > 0 && #[trigger] nodes.entries()[i].0.0@ == k,
{
    let ghost s = nodes.entries();
    let n = indeg.len();
    let mut cycle: Vec<PluginId> = Vec::new();
    let ghost mut idx: Seq<int> = Seq::empty();
    for j in 0..n
        invariant
            n == s.len(),
            s == nodes.entries(),
            keys_distinct(s),
            indeg@.len() == n,
            cycle@.len() == idx.len(),
            forall|p: int|
                0 <= p < idx.len() ==> 0 <= #[trigger] idx[p] < j && indeg@[idx[p]] > 0
                    && cycle@[p].0@ == s[idx[p]].0.0@,
            forall|p: int, q: int| 0 <= p < q < idx.len() ==> idx[p] < idx[q],
            forall|a: int| 0 <= a < j && indeg@[a] > 0 ==> exists|p: int| 0 <= p < idx.len() && #[trigger] idx[p] == a,
    {
        if indeg[j] > 0 {
            let ghost old_idx = idx;
            cycle.push(copy_plugin_id(&nodes.entry_at(j).0));
            proof {
                idx = idx.push(j as int);
                assert forall|a: int| 0 <= a < j + 1 && indeg@[a] > 0 implies exists|p: int|
                    0 <= p < idx.len() && #[trigger] idx[p] == a by {
                    if a < j {
                        let p = choose|p: int| 0 <= p < old_idx.len() && #[trigger] old_idx[p] == a;
                        assert(idx[p] == a);
                    } else {
                        assert(idx[idx.len() - 1] == a);
                    }
                }
            }
        }
    }
    proof {
        assert forall|p: int, q: int|
            0 <= p < cycle@.len() && 0 <= q < cycle@.len() && p != q implies (#[trigger] cycle@[p]).0@
            != (#[trigger] cycle@[q]).0@ by {
            assert(idx[p] != idx[q]);
            assert(s[idx[p]].0.key_view() != s[idx[q]].0.key_view());
        }
        assert forall|k: Seq<char>|
            lists_id(cycle@, k) <==> exists|i: int|
                0 <= i < n && indeg@[i] > 0 && #[trigger] s[i].0.0@ == k by {
            if lists_id(cycle@, k) {
                let p = choose|p: int| 0 <= p < cycle@.len() && (#[trigger] cycle@[p]).0@ == k;
                assert(s[idx[p]].0.0@ == k);
            }
            if exists|i: int| 0 <= i < n && indeg@[i] > 0 && #[trigger] s[i].0.0@ == k {
                let i = choose|i: int| 0 <= i < n && indeg@[i] > 0 && #[trigger] s[i].0.0@ == k;
                let p = choose|p: int| 0 <= p < idx.len() && #[trigger] idx[p] == i;
                assert(cycle@[p].0@ == k);
            }
        }
    }
    cycle
}

/// When the search stops before every entry is done, the graph has a cycle, and the
/// entries left with dependents are exactly the plugins bound to one.
proof fn lemma_cyclic_outcome(
    s: Seq<(PluginId, PluginDepInfo)>,
    succ: Seq<Vec<usize>>,
    indeg: Seq<usize>,
    done: Set<int>,
    cycle: Seq<PluginId>,
)
    requires
        keys_distinct(s),
        succ_ok(s, succ, s.len() as int),
        kahn_inv(succ, indeg, done, Seq::empty(), s.len() as int),
        done_unsupported(map_of(s), s, done),
        done.finite(),
        done.len() < s.len(),
        forall|k: Seq<char>|
            lists_id(cycle, k) <==> exists|i: int|
                0 <= i < indeg.len() && indeg[i] > 0 && #[trigger] s[i].0.0@ == k,
    ensures
        !acyclic(map_of(s)),
        forall|k: Seq<char>| lists_id(cycle, k) <==> cycle_bound(map_of(s), k),
{
    let g = map_of(s);
    let n = s.len() as int;
    lemma_int_range(0, n);
    assert forall|a: int| 0 <= a < n implies (indeg[a] > 0 <==> !done.contains(a)) by {
        if !done.contains(a) && indeg[a] == 0 {
            assert(Seq::<usize>::empty().contains(a as usize));
        }
    }
    let rest = rest_of(s, done);
    lemma_rest_supported(s, succ, indeg, done);
    assert(exists|i: int| 0 <= i < n && !done.contains(i)) by {
        if forall|i: int| 0 <= i < n ==> done.contains(i) {
            assert(set_int_range(0, n).subset_of(done));
            lemma_len_subset(set_int_range(0, n), done);
        }
    }
    let i0 = choose|i: int| 0 <= i < n && !done.contains(i);
    assert(rest.contains(s[i0].0.0@));
    assert(!acyclic(g)) by {
        if acyclic(g) {
            assert(rest == Set::<Seq<char>>::empty());
        }
    }
    assert forall|k: Seq<char>| lists_id(cycle, k) <==> cycle_bound(g, k) by {
        if lists_id(cycle, k) {
            let i = choose|i: int| 0 <= i < indeg.len() && indeg[i] > 0 && #[trigger] s[i].0.0@ == k;
            assert(rest.contains(s[i].0.0@));
        }
        if cycle_bound(g, k) {
            let ss = choose|ss: Set<Seq<char>>| #[trigger] self_supported(g, ss) && ss.contains(k);
            let i = lemma_key_entry(s, k);
            assert(!done.contains(i)) by {
                if done.contains(i) {
                    assert(self_supported(g, ss) && done.contains(i));
                }
            }
            assert(indeg[i] > 0 && s[i].0.0@ == k);
        }
    }
}

/// When every entry is done, no set of plugins supports itself.
proof fn lemma_acyclic_outcome(s: Seq<(PluginId, PluginDepInfo)>, done: Set<int>)
    requires
        keys_distinct(s),
        done_unsupported(map_of(s), s, done),
        done.subset_of(set_int_range(0, s.len() as int)),
        done.finite(),
        done.len() >= s.len(),
    ensures
        acyclic(map_of(s)),
{
    let g = map_of(s);
    let n = s.len() as int;
    lemma_int_range(0, n);
    assert forall|ss: Set<Seq<char>>| #[trigger] self_supported(g, ss) implies ss == Set::<Seq<char>>::empty() by {
        assert forall|k: Seq<char>| !ss.contains(k) by {
            if ss.contains(k) {
                let i = lemma_key_entry(s, k);
                assert(done.contains(i)) by {
                    if !done.contains(i) {
                        assert(done.subset_of(set_int_range(0, n).remove(i)));
                        lemma_len_subset(done, set_int_range(0, n).remove(i));
                    }
                }
                assert(self_supported(g, ss) && done.contains(i));
            }
        }
        assert(ss =~= Set::<Seq<char>>::empty());
    }
}

/// The dependency graph across all installed plugins.
#[derive(Debug)]
pub struct DepGraph {
    nodes: KeyMap<PluginId, PluginDepInfo>,
}

impl DepGraph {
    #[verifier::type_invariant]
    spec fn inv(self) -> bool {
        self.nodes.wf()
    }

    /// Each installed plugin's id, with its dependency metadata.
    pub closed spec fn view(&self) -> DepModel {
        self.nodes@
    }

    /// An empty graph.
    pub fn new() -> (g: Self)
        ensures
            g@ == Map::<Seq<char>, PluginDepInfo>::empty(),
    {
        DepGraph { nodes: KeyMap::new() }
    }

    /// Insert or replace the node of `id`. Cycles are not checked here: call
    /// [`DepGraph::check_acyclic`] once the graph is built.
    pub fn insert(&mut self, id: PluginId, info: PluginDepInfo)
        ensures
            final(self)@ == old(self)@.insert(id.0@, info),
    {
        proof {
            use_type_invariant(&*self);
        }
        let mut nodes = KeyMap::new();
        std::mem::swap(&mut nodes, &mut self.nodes);
        nodes.insert(id, info);
        self.nodes = nodes;
    }

    /// Remove the node of `id`, if there is one.
    pub fn remove(&mut self, id: &PluginId)
        ensures
            final(self)@ == old(self)@.remove(id.0@),
    {
        proof {
            use_type_invariant(&*self);
        }
        let mut nodes = KeyMap::new();
        std::mem::swap(&mut nodes, &mut self.nodes);
        let _ = nodes.remove(id.0.as_str());
        self.nodes = nodes;
    }

    /// Whether `id` is installed.
    pub fn contains(&self, id: &PluginId) -> (b: bool)
        ensures
            b == self@.contains_key(id.0@),
    {
        proof {
            use_type_invariant(self);
        }
        self.nodes.contains_key(id.0.as_str())
    }

    /// The version of plugin `id`, if it is installed.
    pub fn version_of(&self, id: &PluginId) -> (r: Option<&str>)
        ensures
            match r {
                Some(v) => self@.contains_key(id.0@) && v@ == self@[id.0@].version@,
                None => !self@.contains_key(id.0@),
            },
    {
        proof {
            use_type_invariant(self);
        }
        match self.nodes.get(id.0.as_str()) {
            Some(info) => Some(info.version.as_str()),
            None => None,
        }
    }

    /// Whether the dependencies of the installed plugins form no cycle (Kahn's
    /// algorithm). On a cycle, the error lists, once each, every plugin that lies on a
    /// cycle or that a plugin on a cycle depends on, directly or through others.
    pub fn check_acyclic(&self) -> (r: Result<(), InstallError>)
        ensures
            r is Ok <==> acyclic(self@),
            r is Err ==> (r matches Err(InstallError::CyclicDependency { cycle }) && distinct_ids(
                cycle@,
            ) && forall|k: Seq<char>| lists_id(cycle@, k) <==> cycle_bound(self@, k)),
    {
        proof {
            use_type_invariant(self);
        }
        let ghost s = self.nodes.entries();
        let ghost g = self.nodes@;
        let n = self.nodes.len();
        proof {
            lemma_map_of(s);
            lemma_int_range(0, n as int);
        }
        let succ = successor_rows(&self.nodes);
        let mut indeg = in_degrees(&succ);
        let mut stack = sources(&indeg);
        let ghost mut done = Set::<int>::empty();
        let mut visited: usize = 0;
        assert(kahn_inv(succ@, indeg@, done, stack@, n as int));
        while stack.len() > 0
            invariant
                n == s.len(),
                keys_distinct(s),
                g == map_of(s),
                succ_ok(s, succ@, n as int),
                kahn_inv(succ@, indeg@, done, stack@, n as int),
                done_unsupported(g, s, done),
                visited == done.len(),
                visited <= n,
                done.finite(),
                set_int_range(0, n as int).finite(),
                set_int_range(0, n as int).len() == n,
            decreases n - visited,
        {
            let ghost st = stack@;
            let u = stack.pop().unwrap();
            proof {
                assert(st[st.len() - 1] == u);
                assert(stack@.push(u) =~= st);
                assert(indeg@[u as int] == 0);
                lemma_mark_done(s, succ@, done, u);
                assert(done.subset_of(set_int_range(0, n as int).remove(u as int)));
                lemma_len_subset(done, set_int_range(0, n as int).remove(u as int));
            }
            release(&succ, u, &mut indeg, &mut stack, Ghost(done));
            proof {
                done = done.insert(u as int);
            }
            visited = visited + 1;
        }
        let cycle = left_over(&self.nodes, &indeg);
        if visited < n {
            proof {
                lemma_cyclic_outcome(s, succ@, indeg@, done, cycle@);
            }
            return Err(InstallError::CyclicDependency { cycle });
        }
        proof {
            lemma_acyclic_outcome(s, done);
        }
        Ok(())
    }

    /// Check the required dependencies among `deps` of `plugin_id` against the installed
    /// plugins, in order: the first that is missing, or installed at a version that does
    /// not satisfy its constraint, is the error. Optional dependencies are skipped.
    pub fn validate_required_deps(&self, plugin_id: &PluginId, deps: &[PluginDependency]) -> (r:
        Result<(), InstallError>)
        ensures
            r is Ok <==> forall|i: int| 0 <= i < deps@.len() ==> required_met(self@, #[trigger] deps@[i]),
            r matches Err(e) ==> exists|i: int|
                0 <= i < deps@.len() && !required_met(self@, #[trigger] deps@[i]) && (forall|j: int|
                    0 <= j < i ==> required_met(self@, #[trigger] deps@[j])) && unmet_error(
                    self@,
                    *plugin_id,
                    deps@[i],
                    e,
                ),
    {
        proof {
            use_type_invariant(self);
        }
        for i in 0..deps.len()
            invariant
                self.nodes.wf(),
                forall|j: int| 0 <= j < i ==> required_met(self@, #[trigger] deps@[j]),
        {
            let dep = &deps[i];
            if dep.required {
                match self.nodes.get(dep.id.0.as_str()) {
                    None => {
                        return Err(
                            InstallError::DependencyMissing {
                                plugin: copy_plugin_id(plugin_id),
                                dependency: copy_plugin_id(&dep.id),
                            },
                        );
                    },
                    Some(info) => {
                        let checked = check_version_match(
                            plugin_id,
                            &dep.id,
                            dep.version.0.as_str(),
                            info.version.as_str(),
                        );
                        if checked.is_err() {
                            return checked;
                        }
                    },
                }
            }
        }
        Ok(())
    }

    /// For each optional dependency among `deps`, in order, its index and whether it
    /// is met by the installed plugins.
    pub fn optional_satisfiability(&self, deps: &[PluginDependency]) -> (r: Vec<(usize, bool)>)
        ensures
            r@ == optional_status(self@, deps@, deps@.len() as int),
    {
        proof {
            use_type_invariant(self);
        }
        let mut r: Vec<(usize, bool)> = Vec::new();
        for i in 0..deps.len()
            invariant
                self.nodes.wf(),
                r@ == optional_status(self@, deps@, i as int),
        {
            let dep = &deps[i];
            if !dep.required {
                let ok = match self.nodes.get(dep.id.0.as_str()) {
                    Some(info) => check_version_match(
                        &PluginId::default(),
                        &dep.id,
                        dep.version.0.as_str(),
                        info.version.as_str(),
                    ).is_ok(),
                    None => false,
                };
                r.push((i, ok));
            }
        }
        r
    }

    /// The installed plugins that declare a required dependency on `id`, once each.
    pub fn required_dependents_of(&self, id: &PluginId) -> (r: Vec<PluginId>)
        ensures
            distinct_ids(r@),
            forall|k: Seq<char>|
                lists_id(r@, k) <==> self@.contains_key(k) && declares_dep(self@, k, id.0@, true),
    {
        proof {
            use_type_invariant(self);
        }
        dependents_with(&self.nodes, id, true)
    }

    /// The installed plugins that declare an optional dependency on `id`, once each.
    pub fn optional_dependents_of(&self, id: &PluginId) -> (r: Vec<PluginId>)
        ensures
            distinct_ids(r@),
            forall|k: Seq<char>|
                lists_id(r@, k) <==> self@.contains_key(k) && declares_dep(self@, k, id.0@, false),
    {
        proof {
            use_type_invariant(self);
        }
        dependents_with(&self.nodes, id, false)
    }
}

impl Default for DepGraph {
    fn default() -> (g: Self)
        ensures
            g@ == Map::<Seq<char>, PluginDepInfo>::empty(),
    {
        DepGraph::new()
    }
}

/// Whether `deps` holds a dependency on `target` whose `required` flag is `required`.
fn declares(deps: &Vec<PluginDependency>, target: &str, required: bool) -> (b: bool)
    ensures
        b == exists|d: int|
            0 <= d < deps@.len() && (#[trigger] deps@[d]).required == required && deps@[d].id.0@
                == target@,
{
    for d in 0..deps.len()
        invariant
            forall|e: int|
                0 <= e < d ==> !((#[trigger] deps@[e]).required == required && deps@[e].id.0@ == target@),
    {
        if deps[d].required == required && crate::keymap::str_eq(deps[d].id.0.as_str(), target) {
            return true;
        }
    }
    false
}

/// The plugins of `nodes` that declare a dependency on `id` with the given flag.
fn dependents_with(nodes: &KeyMap<PluginId, PluginDepInfo>, id: &PluginId, required: bool) -> (r: Vec<PluginId>)
    requires
        nodes.wf(),
    ensures
        distinct_ids(r@),
        forall|k: Seq<char>|
            lists_id(r@, k) <==> nodes@.contains_key(k) && declares_dep(nodes@, k, id.0@, required),
{
    let ghost s = nodes.entries();
    proof {
        lemma_map_of(s);
    }
    let n = nodes.len();
    let mut r: Vec<PluginId> = Vec::new();
    let ghost mut idx: Seq<int> = Seq::empty();
    for j in 0..n
        invariant
            n == s.len(),
            s == nodes.entries(),
            nodes.wf(),
            r@.len() == idx.len(),
            forall|p: int|
                0 <= p < idx.len() ==> 0 <= #[trigger] idx[p] < j && r@[p].0@ == s[idx[p]].0.0@
                    && declares_dep(nodes@, s[idx[p]].0.0@, id.0@, required),
            forall|p: int, q: int| 0 <= p < q < idx.len() ==> idx[p] < idx[q],
            forall|a: int|
                0 <= a < j && declares_dep(nodes@, #[trigger] s[a].0.0@, id.0@, required) ==> exists|p: int|
                    0 <= p < idx.len() && #[trigger] idx[p] == a,
    {
        let entry = nodes.entry_at(j);
        proof {
            lemma_map_of(s);
            assert(nodes@[s[j as int].0.key_view()] == s[j as int].1);
        }
        if declares(&entry.1.requires, id.0.as_str(), required) {
            let ghost old_idx = idx;
            r.push(copy_plugin_id(&entry.0));
            proof {
                idx = idx.push(j as int);
                assert forall|a: int|
                    0 <= a < j + 1 && declares_dep(nodes@, #[trigger] s[a].0.0@, id.0@, required) implies exists|p: int|
                    0 <= p < idx.len() && #[trigger] idx[p] == a by {
                    if a < j {
                        let p = choose|p: int| 0 <= p < old_idx.len() && #[trigger] old_idx[p] == a;
                        assert(idx[p] == a);
                    } else {
                        assert(idx[idx.len() - 1] == a);
                    }
                }
            }
        }
    }
    proof {
        assert forall|p: int, q: int|
            0 <= p < r@.len() && 0 <= q < r@.len() && p != q implies (#[trigger] r@[p]).0@ != (
            #[trigger] r@[q]).0@ by {
            assert(idx[p] != idx[q]);
            assert(s[idx[p]].0.key_view() != s[idx[q]].0.key_view());
        }
        assert forall|k: Seq<char>|
            lists_id(r@, k) <==> nodes@.contains_key(k) && declares_dep(nodes@, k, id.0@, required) by {
            if lists_id(r@, k) {
                let p = choose|p: int| 0 <= p < r@.len() && (#[trigger] r@[p]).0@ == k;
                assert(nodes@.contains_key(s[idx[p]].0.key_view()));
            }
            if nodes@.contains_key(k) && declares_dep(nodes@, k, id.0@, required) {
                let i = lemma_key_entry(s, k);
                let p = choose|p: int| 0 <= p < idx.len() && #[trigger] idx[p] == i;
                assert(r@[p].0@ == k);
            }
        }
    }
    r
}

} // verus!
