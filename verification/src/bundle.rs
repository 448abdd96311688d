//! Plugin bundles: a directory with a `bundle.toml` manifest and one subdirectory per
//! plugin, installed together. Bundle siblings may be granted calls into each other.

use vstd::prelude::*;

use crate::config::{join_path, joined_path};
use crate::keymap::str_eq;
use crate::dispatch::{concat, usize_text, decimal};
use crate::errors::PluginRuntimeError;
use crate::keymap::KeyMap;
use crate::protocol::{copy_plugin_id, copy_strings, PluginDependency, PluginId, VersionConstraint};

verus! {

/// How trust flows among the plugins of a bundle.
#[derive(Debug, Clone)]
pub struct BundleTrustGroup {
    /// Each plugin may call every public function of every sibling.
    pub mutual_call_plugin: bool,
}

impl Default for BundleTrustGroup {
    fn default() -> (g: Self)
        ensures
            !g.mutual_call_plugin,
    {
        BundleTrustGroup { mutual_call_plugin: false }
    }
}

/// One plugin of a bundle.
#[derive(Debug, Clone)]
pub struct BundlePluginEntry {
    /// Must match the id in the plugin's own manifest.
    pub id: PluginId,
    /// The plugin's directory, relative to the bundle root.
    pub path: String,
}

/// The `bundle.toml` manifest.
#[derive(Debug, Clone)]
pub struct BundleManifest {
    pub bundle: BundleInner,
}

/// The `[bundle]` table.
#[derive(Debug, Clone)]
pub struct BundleInner {
    pub id: String,
    pub version: String,
    pub plugins: Vec<BundlePluginEntry>,
    pub trust_group: BundleTrustGroup,
}

/// Identifies a bundle install: the `bundle.id` text.
#[derive(Debug, Clone, PartialEq, Eq, Hash)]
pub struct BundleId(pub String);

/// Where to load a bundle from.
pub enum BundleSource {
    /// A local directory holding `bundle.toml` and the plugin directories.
    Directory(std::path::PathBuf),
}

impl BundleSource {
    /// The directory of plugin `entry`: its path joined to the bundle directory.
    pub fn plugin_path(&self, entry: &BundlePluginEntry) -> (r: std::path::PathBuf)
        ensures
            match self {
                BundleSource::Directory(dir) => r == joined_path(*dir, entry.path@),
            },
    {
        match self {
            BundleSource::Directory(dir) => join_path(dir, entry.path.as_str()),
        }
    }
}

/// A dependency as plain values: target, version constraint, required, functions.
pub open spec fn dep_view(d: PluginDependency) -> (Seq<char>, Seq<char>, bool, Seq<String>) {
    (d.id.0@, d.version.0@, d.required, d.functions@)
}

/// The public functions of `id`, or none.
pub open spec fn public_fns(fns: Map<Seq<char>, Vec<String>>, id: Seq<char>) -> Seq<String> {
    if fns.contains_key(id) {
        fns[id]@
    } else {
        Seq::empty()
    }
}

/// The dependencies synthesised for plugin `me` from the first `n` bundle plugins:
/// one on each other plugin with public functions, any version, required, calling
/// those functions.
pub open spec fn sibling_deps(
    ids: Seq<PluginId>,
    fns: Map<Seq<char>, Vec<String>>,
    me: PluginId,
    n: int,
) -> Seq<(Seq<char>, Seq<char>, bool, Seq<String>)>
    decreases n,
{
    if n <= 0 {
        Seq::empty()
    } else {
        let prev = sibling_deps(ids, fns, me, n - 1);
        let s = ids[n - 1];
        if s.0@ == me.0@ || public_fns(fns, s.0@).len() == 0 {
            prev
        } else {
            prev.push((s.0@, "*"@, true, public_fns(fns, s.0@)))
        }
    }
}

/// The public functions of `id`, copied, or none.
fn public_fns_of(fns: &KeyMap<PluginId, Vec<String>>, id: &PluginId) -> (r: Vec<String>)
    requires
        fns.wf(),
    ensures
        r@ == public_fns(fns@, id.0@),
{
    match fns.get(id.0.as_str()) {
        Some(v) => copy_strings(v),
        None => Vec::new(),
    }
}

/// For each bundle plugin with at least one synthesised dependency, those
/// dependencies: when the trust group is mutual, every plugin may call every public
/// function (from `public_fns_by_id`) of each sibling, which is expressed as a
/// required dependency on the sibling at any version.
pub fn synthesise_trust_group(
    plugin_ids: &[PluginId],
    public_fns_by_id: &KeyMap<PluginId, Vec<String>>,
) -> (r: KeyMap<PluginId, Vec<PluginDependency>>)
    ensures
        r.wf(),
        forall|k: Seq<char>|
            #[trigger] r@.contains_key(k) <==> exists|i: int|
                0 <= i < plugin_ids@.len() && plugin_ids@[i].0@ == k && sibling_deps(
                    plugin_ids@,
                    public_fns_by_id@,
                    plugin_ids@[i],
                    plugin_ids@.len() as int,
                ).len() > 0,
        forall|i: int|
            0 <= i < plugin_ids@.len() && #[trigger] r@.contains_key(plugin_ids@[i].0@) ==> r@[plugin_ids@[i].0@]@.map_values(
                |d: PluginDependency| dep_view(d),
            ) == sibling_deps(plugin_ids@, public_fns_by_id@, plugin_ids@[i], plugin_ids@.len() as int),
{
    proof {
        use_type_invariant(public_fns_by_id);
    }
    let n = plugin_ids.len();
    let ghost fv = public_fns_by_id@;
    let mut result: KeyMap<PluginId, Vec<PluginDependency>> = KeyMap::new();
    for a in 0..n
        invariant
            n == plugin_ids@.len(),
            fv == public_fns_by_id@,
            public_fns_by_id.wf(),
            result.wf(),
            forall|k: Seq<char>|
                #[trigger] result@.contains_key(k) <==> exists|i: int|
                    0 <= i < a && plugin_ids@[i].0@ == k && sibling_deps(plugin_ids@, fv, plugin_ids@[i], n as int).len() > 0,
            forall|i: int|
                0 <= i < a && #[trigger] result@.contains_key(plugin_ids@[i].0@) ==> result@[plugin_ids@[i].0@]@.map_values(
                    |d: PluginDependency| dep_view(d),
                ) == sibling_deps(plugin_ids@, fv, plugin_ids@[i], n as int),
    {
        let id = &plugin_ids[a];
        let mut deps: Vec<PluginDependency> = Vec::new();
        for b in 0..n
            invariant
                n == plugin_ids@.len(),
                a < n,
                fv == public_fns_by_id@,
                public_fns_by_id.wf(),
                *id == plugin_ids@[a as int],
                deps@.map_values(|d: PluginDependency| dep_view(d)) == sibling_deps(plugin_ids@, fv, *id, b as int),
        {
            let sibling = &plugin_ids[b];
            let ghost before = deps@;
            if !crate::keymap::str_eq(sibling.0.as_str(), id.0.as_str()) {
                let functions = public_fns_of(public_fns_by_id, sibling);
                if functions.len() > 0 {
                    proof {
                        reveal_strlit("*");
                    }
                    deps.push(PluginDependency::new(sibling.0.as_str(), "*", true, functions));
                    proof {
                        assert(deps@.map_values(|d: PluginDependency| dep_view(d)) =~= before.map_values(
                            |d: PluginDependency| dep_view(d),
                        ).push(dep_view(deps@.last())));
                    }
                }
            }
        }
        if deps.len() > 0 {
            let ghost dv = deps@;
            let ghost before = result@;
            result.insert(copy_plugin_id(id), deps);
            proof {
                assert forall|k: Seq<char>|
                    #[trigger] result@.contains_key(k) <==> exists|i: int|
                        0 <= i < a + 1 && plugin_ids@[i].0@ == k && sibling_deps(plugin_ids@, fv, plugin_ids@[i], n as int).len() > 0 by {
                    if k == id.0@ {
                        assert(plugin_ids@[a as int].0@ == k);
                    }
                }
                assert forall|i: int|
                    0 <= i < a + 1 && #[trigger] result@.contains_key(plugin_ids@[i].0@) implies result@[plugin_ids@[i].0@]@.map_values(
                        |d: PluginDependency| dep_view(d),
                    ) == sibling_deps(plugin_ids@, fv, plugin_ids@[i], n as int) by {
                    if plugin_ids@[i].0@ == id.0@ {
                        assert(result@[id.0@]@ == dv);
                        assert(sibling_deps(plugin_ids@, fv, plugin_ids@[i], n as int) =~= sibling_deps(plugin_ids@, fv, *id, n as int)) by {
                            lemma_sibling_deps_same_me(plugin_ids@, fv, plugin_ids@[i], *id, n as int);
                        }
                    } else {
                        assert(before.contains_key(plugin_ids@[i].0@));
                        assert(result@[plugin_ids@[i].0@] == before[plugin_ids@[i].0@]);
                        assert(i < a);
                    }
                }
            }
        } else {
            proof {
                if result@.contains_key(id.0@) {
                    let j = choose|j: int|
                        0 <= j < a && plugin_ids@[j].0@ == id.0@ && sibling_deps(plugin_ids@, fv, plugin_ids@[j], n as int).len() > 0;
                    lemma_sibling_deps_same_me(plugin_ids@, fv, plugin_ids@[j], *id, n as int);
                    assert(deps@.map_values(|d: PluginDependency| dep_view(d)).len() == 0);
                    assert(false);
                }
                assert forall|k: Seq<char>|
                    #[trigger] result@.contains_key(k) <==> exists|i: int|
                        0 <= i < a + 1 && plugin_ids@[i].0@ == k && sibling_deps(plugin_ids@, fv, plugin_ids@[i], n as int).len() > 0 by {
                    if exists|i: int|
                        0 <= i < a + 1 && plugin_ids@[i].0@ == k && sibling_deps(plugin_ids@, fv, plugin_ids@[i], n as int).len() > 0 {
                        let i = choose|i: int|
                            0 <= i < a + 1 && plugin_ids@[i].0@ == k && sibling_deps(plugin_ids@, fv, plugin_ids@[i], n as int).len() > 0;
                        if i == a {
                            lemma_sibling_deps_same_me(plugin_ids@, fv, plugin_ids@[i], *id, n as int);
                        }
                    }
                }
            }
        }
    }
    result
}

/// Two plugins with the same id get the same synthesised dependencies.
proof fn lemma_sibling_deps_same_me(
    ids: Seq<PluginId>,
    fns: Map<Seq<char>, Vec<String>>,
    a: PluginId,
    b: PluginId,
    n: int,
)
    requires
        a.0@ == b.0@,
    ensures
        sibling_deps(ids, fns, a, n) == sibling_deps(ids, fns, b, n),
    decreases n,
{
    if n > 0 {
        lemma_sibling_deps_same_me(ids, fns, a, b, n - 1);
    }
}

/// The message when directory `dir` holds no WASM file.
pub open spec fn no_wasm_message(dir: Seq<char>) -> Seq<char> {
    "no .wasm file found in "@ + dir
}

/// The message when directory `dir` holds `n` WASM files.
pub open spec fn many_wasm_message(n: nat, dir: Seq<char>) -> Seq<char> {
    decimal(n) + " .wasm files found in "@ + dir + "; expected exactly one"@
}

/// The directory entry has the `wasm` extension (its extension as text, if it has one).
pub open spec fn is_wasm_ext(ext: Option<String>) -> bool {
    ext matches Some(e) && e@ == "wasm"@
}

/// The paths of the `.wasm` entries among `entries`, in order.
pub open spec fn wasm_paths(entries: Seq<(std::path::PathBuf, Option<String>)>) -> Seq<std::path::PathBuf>
    decreases entries.len(),
{
    if entries.len() == 0 {
        seq![]
    } else if is_wasm_ext(entries.last().1) {
        wasm_paths(entries.drop_last()).push(entries.last().0)
    } else {
        wasm_paths(entries.drop_last())
    }
}

/// The plugin file of a directory (`dir` as displayed) whose entries are `entries`,
/// each path with its extension: the one `.wasm` file, or an error when there is none
/// or more than one.
pub fn pick_single_wasm(entries: Vec<(std::path::PathBuf, Option<String>)>, dir: &str) -> (r: Result<
    std::path::PathBuf,
    PluginRuntimeError,
>)
    ensures
        wasm_paths(entries@).len() == 1 ==> r == Ok::<std::path::PathBuf, PluginRuntimeError>(
            wasm_paths(entries@)[0],
        ),
        wasm_paths(entries@).len() == 0 ==> (r matches Err(PluginRuntimeError::Pool(m)) && m@
            == no_wasm_message(dir@)),
        wasm_paths(entries@).len() > 1 ==> (r matches Err(PluginRuntimeError::Pool(m)) && m@
            == many_wasm_message(wasm_paths(entries@).len(), dir@)),
{
    let ghost es = entries@;
    let mut rest = entries;
    let mut wasms: Vec<std::path::PathBuf> = Vec::new();
    proof {
        assert(wasm_paths(es) + wasms@ =~= wasm_paths(es));
    }
    while rest.len() > 0
        invariant
            wasm_paths(es) == wasm_paths(rest@) + wasms@,
        decreases rest@.len(),
    {
        let ghost before = rest@;
        let (path, ext) = rest.pop().unwrap();
        let is_wasm = match &ext {
            Some(x) => str_eq(x.as_str(), "wasm"),
            None => false,
        };
        proof {
            assert(before.drop_last() == rest@);
            assert(is_wasm == is_wasm_ext(before.last().1));
        }
        let ghost acc = wasms@;
        if is_wasm {
            wasms.insert(0, path);
            proof {
                assert(wasm_paths(before) == wasm_paths(rest@).push(path));
                assert(wasm_paths(rest@).push(path) + acc =~= wasm_paths(rest@) + wasms@);
            }
        }
    }
    proof {
        assert(rest@ =~= Seq::<(std::path::PathBuf, Option<String>)>::empty());
        assert(wasm_paths(rest@) + wasms@ =~= wasms@);
    }
    let n = wasms.len();
    if n == 1 {
        match wasms.pop() {
            Some(p) => Ok(p),
            None => Err(PluginRuntimeError::Pool(String::new())),
        }
    } else if n == 0 {
        let m = concat("no .wasm file found in ", dir);
        Err(PluginRuntimeError::Pool(m))
    } else {
        let count = usize_text(n);
        let a = concat(count.as_str(), " .wasm files found in ");
        let b = concat(a.as_str(), dir);
        let m = concat(b.as_str(), "; expected exactly one");
        Err(PluginRuntimeError::Pool(m))
    }
}

} // verus!
