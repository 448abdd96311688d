//! Admission of a plugin: protocol version, capabilities granted, manifest extensions,
//! signature policy; and the grant checks that host functions make at call time.

use vstd::prelude::*;
use vstd::string::StringExecFns;

use crate::dispatch::concat;
use crate::errors::{ManifestExtensionError, PluginRuntimeError};
use crate::keymap::{str_eq, KeyMap};
use crate::plugins::LoadedPlugin;
use crate::protocol::{copy_plugin_id, copy_strings, HostCapability, PluginId, PluginManifest, PROTOCOL_VERSION};
use crate::text::{chars_of, slice_to_string};
use crate::trust::TrustTag;

verus! {

broadcast use vstd::string::group_string_axioms;

// ── Simple gates ────────────────────────────────────────────────────────────

/// A manifest needing a newer protocol than this host's is refused.
pub fn check_protocol(manifest: &PluginManifest) -> (r: Result<(), PluginRuntimeError>)
    ensures
        manifest.min_protocol_version <= PROTOCOL_VERSION <==> (r is Ok),
        r matches Err(e) ==> (e == PluginRuntimeError::ProtocolVersionMismatch {
            required: manifest.min_protocol_version,
            host: PROTOCOL_VERSION,
        }),
{
    if manifest.min_protocol_version > PROTOCOL_VERSION {
        Err(
            PluginRuntimeError::ProtocolVersionMismatch {
                required: manifest.min_protocol_version,
                host: PROTOCOL_VERSION,
            },
        )
    } else {
        Ok(())
    }
}

/// The capability text of an install refused because the id is taken.
pub open spec fn already_installed_text() -> Seq<char> {
    "plugin already installed; use reload_plugin to update"@
}

/// Installing a plugin whose id is already loaded is refused.
pub fn check_not_installed(id: &PluginId, installed: bool) -> (r: Result<(), PluginRuntimeError>)
    ensures
        !installed <==> (r is Ok),
        r matches Err(e) ==> e matches PluginRuntimeError::CapabilityDenied { plugin, capability }
            && plugin == *id && capability@ == already_installed_text(),
{
    if installed {
        Err(
            PluginRuntimeError::CapabilityDenied {
                plugin: copy_plugin_id(id),
                capability: String::from_str("plugin already installed; use reload_plugin to update"),
            },
        )
    } else {
        Ok(())
    }
}

/// When signatures are required, a plugin whose signature did not verify is refused.
pub fn check_trust(id: &PluginId, tag: &TrustTag, require_signature: bool) -> (r: Result<(), PluginRuntimeError>)
    ensures
        (tag.verified || !require_signature) <==> (r is Ok),
        r matches Err(e) ==> e == PluginRuntimeError::UntrustedPlugin(*id),
{
    if !tag.verified && require_signature {
        Err(PluginRuntimeError::UntrustedPlugin(copy_plugin_id(id)))
    } else {
        Ok(())
    }
}

// ── Manifest extensions ─────────────────────────────────────────────────────

/// What to do with a manifest extension namespace that no handler is registered for.
#[derive(Debug, Clone)]
#[non_exhaustive]
pub enum OnUnknownExtension {
    Warn,
    Error,
    Ignore,
}

impl Default for OnUnknownExtension {
    fn default() -> (r: Self)
        ensures
            r is Warn,
    {
        OnUnknownExtension::Warn
    }
}

/// What admission does after checking one manifest extension.
pub enum ExtensionVerdict {
    /// Go on.
    Accept,
    /// Go on, after warning that the namespace is unknown.
    WarnUnknown,
}

/// Decide on extension `namespace` of `plugin`: `validation` is the registered
/// handler's answer, `None` when no handler is registered for the namespace.
pub fn extension_verdict(
    plugin: &PluginId,
    namespace: &str,
    validation: Option<Result<(), ManifestExtensionError>>,
    policy: &OnUnknownExtension,
) -> (r: Result<ExtensionVerdict, PluginRuntimeError>)
    ensures
        match validation {
            Some(Ok(())) => r matches Ok(ExtensionVerdict::Accept),
            Some(Err(source)) => r == Err::<ExtensionVerdict, PluginRuntimeError>(
                PluginRuntimeError::ManifestExtension { plugin: *plugin, source },
            ),
            None => match policy {
                OnUnknownExtension::Warn => r matches Ok(ExtensionVerdict::WarnUnknown),
                OnUnknownExtension::Ignore => r matches Ok(ExtensionVerdict::Accept),
                OnUnknownExtension::Error => r matches Err(PluginRuntimeError::UnknownManifestExtension {
                    plugin: p,
                    namespace: n,
                }) && p == *plugin && n@ == namespace@,
            },
        },
{
    match validation {
        Some(Ok(())) => Ok(ExtensionVerdict::Accept),
        Some(Err(source)) => Err(PluginRuntimeError::ManifestExtension { plugin: copy_plugin_id(plugin), source }),
        None => match policy {
            OnUnknownExtension::Warn => Ok(ExtensionVerdict::WarnUnknown),
            OnUnknownExtension::Ignore => Ok(ExtensionVerdict::Accept),
            OnUnknownExtension::Error => Err(
                PluginRuntimeError::UnknownManifestExtension {
                    plugin: copy_plugin_id(plugin),
                    namespace: namespace.to_owned(),
                },
            ),
        },
    }
}

// ── Custom capabilities ─────────────────────────────────────────────────────

/// Position `i` of `caps` is the first `Custom` capability for `namespace`.
pub open spec fn first_custom(caps: Seq<HostCapability>, namespace: Seq<char>, i: int) -> bool {
    &&& 0 <= i < caps.len()
    &&& caps[i] matches HostCapability::Custom { namespace: ns, .. } && ns@ == namespace
    &&& forall|j: int|
        0 <= j < i ==> !((#[trigger] caps[j]) matches HostCapability::Custom { namespace: ns, .. } && ns@ == namespace)
}

/// The capability text `Custom(<namespace>): <detail>`.
pub open spec fn custom_text(namespace: Seq<char>, detail: Seq<char>) -> Seq<char> {
    "Custom("@ + namespace + "): "@ + detail
}

/// `Custom(<namespace>): <detail>`.
fn custom_capability_text(namespace: &str, detail: &str) -> (r: String)
    ensures
        r@ == custom_text(namespace@, detail@),
{
    let mut r = String::from_str("Custom(");
    r.append(namespace);
    r.append("): ");
    r.append(detail);
    r
}

/// The value that plugin `plugin_id` declares for the `Custom` capability
/// `namespace`, to hand to the host's check for it. Fails when the plugin is not
/// loaded or never declared the capability.
pub fn custom_capability_request<'a>(
    plugin_id: &PluginId,
    plugin: Option<&'a LoadedPlugin>,
    namespace: &str,
) -> (r: Result<&'a serde_json::Value, PluginRuntimeError>)
    ensures
        match plugin {
            None => r == Err::<&serde_json::Value, PluginRuntimeError>(PluginRuntimeError::PluginNotFound(*plugin_id)),
            Some(p) => match r {
                Ok(v) => exists|i: int|
                    first_custom(p.manifest.host_capabilities@, namespace@, i)
                        && (p.manifest.host_capabilities@[i] matches HostCapability::Custom { value, .. } && value == *v),
                Err(e) => (forall|i: int| !first_custom(p.manifest.host_capabilities@, namespace@, i))
                    && (e matches PluginRuntimeError::CapabilityDenied { plugin, capability } && plugin
                    == *plugin_id && capability@ == custom_text(namespace@, "not declared in manifest"@)),
            },
        },
{
    let p = match plugin {
        Some(p) => p,
        None => {
            return Err(PluginRuntimeError::PluginNotFound(copy_plugin_id(plugin_id)));
        },
    };
    let caps = &p.manifest.host_capabilities;
    for i in 0..caps.len()
        invariant
            plugin == Some(p),
            *caps == p.manifest.host_capabilities,
            forall|j: int|
                0 <= j < i ==> !((#[trigger] caps@[j]) matches HostCapability::Custom { namespace: ns, .. } && ns@
                    == namespace@),
    {
        match &caps[i] {
            HostCapability::Custom { namespace: ns, value } => {
                if str_eq(ns.as_str(), namespace) {
                    proof {
                        assert(first_custom(caps@, namespace@, i as int));
                    }
                    return Ok(value);
                }
            },
            _ => {},
        }
    }
    proof {
        assert forall|i: int| !first_custom(caps@, namespace@, i) by {
            if 0 <= i < caps@.len() {
                assert(!(caps@[i] matches HostCapability::Custom { namespace: ns, .. } && ns@ == namespace@));
            }
        }
    }
    Err(
        PluginRuntimeError::CapabilityDenied {
            plugin: copy_plugin_id(plugin_id),
            capability: custom_capability_text(namespace, "not declared in manifest"),
        },
    )
}

/// The error of a `Custom` capability check: `check` is the host check's answer,
/// `None` when no check is registered for `namespace`.
pub open spec fn custom_check_error(
    plugin_id: PluginId,
    namespace: Seq<char>,
    check: Option<Result<(), String>>,
    e: PluginRuntimeError,
) -> bool {
    e matches PluginRuntimeError::CapabilityDenied { plugin, capability } && plugin == plugin_id
        && capability@ == match check {
        Some(Err(reason)) => custom_text(namespace, reason@),
        _ => custom_text(namespace, "no check registered"@),
    }
}

/// The outcome of a `Custom` capability check of `plugin_id` for `namespace`.
pub fn custom_check_outcome(plugin_id: &PluginId, namespace: &str, check: Option<Result<(), String>>) -> (r: Result<
    (),
    PluginRuntimeError,
>)
    ensures
        (check matches Some(Ok(_))) <==> (r is Ok),
        r matches Err(e) ==> custom_check_error(*plugin_id, namespace@, check, e),
{
    match check {
        Some(Ok(())) => Ok(()),
        Some(Err(reason)) => Err(
            PluginRuntimeError::CapabilityDenied {
                plugin: copy_plugin_id(plugin_id),
                capability: custom_capability_text(namespace, reason.as_str()),
            },
        ),
        None => Err(
            PluginRuntimeError::CapabilityDenied {
                plugin: copy_plugin_id(plugin_id),
                capability: custom_capability_text(namespace, "no check registered"),
            },
        ),
    }
}

// ── Capability grants ───────────────────────────────────────────────────────

/// What a plugin may do through host functions, granted from its manifest's
/// capabilities.
pub struct Grants {
    /// Host invocations the plugin may call.
    pub invocations: Vec<String>,
    /// Global state keys the plugin may read; none listed means any.
    pub global_read: Vec<String>,
    /// Global state keys the plugin may write; none listed means any.
    pub global_write: Vec<String>,
    /// Hostnames the plugin may contact; none listed means no restriction.
    pub http_hosts: Vec<String>,
    /// Other plugins' global state keys the plugin may read.
    pub plugin_state_reads: KeyMap<PluginId, Vec<String>>,
}

/// The invocation names of the `Invoke` capabilities of `caps`, in order.
pub open spec fn invoke_names(caps: Seq<HostCapability>) -> Seq<String>
    decreases caps.len(),
{
    if caps.len() == 0 {
        Seq::empty()
    } else {
        let prev = invoke_names(caps.drop_last());
        match caps.last() {
            HostCapability::Invoke { names } => prev + names@,
            _ => prev,
        }
    }
}

/// The keys of the `GlobalStateRead` capabilities of `caps`, in order.
pub open spec fn read_keys(caps: Seq<HostCapability>) -> Seq<String>
    decreases caps.len(),
{
    if caps.len() == 0 {
        Seq::empty()
    } else {
        let prev = read_keys(caps.drop_last());
        match caps.last() {
            HostCapability::GlobalStateRead { keys } => prev + keys@,
            _ => prev,
        }
    }
}

/// The keys of the `GlobalStateWrite` capabilities of `caps`, in order.
pub open spec fn write_keys(caps: Seq<HostCapability>) -> Seq<String>
    decreases caps.len(),
{
    if caps.len() == 0 {
        Seq::empty()
    } else {
        let prev = write_keys(caps.drop_last());
        match caps.last() {
            HostCapability::GlobalStateWrite { keys } => prev + keys@,
            _ => prev,
        }
    }
}

/// The hosts of the `Http` capabilities of `caps`, in order.
pub open spec fn http_hosts_of(caps: Seq<HostCapability>) -> Seq<String>
    decreases caps.len(),
{
    if caps.len() == 0 {
        Seq::empty()
    } else {
        let prev = http_hosts_of(caps.drop_last());
        match caps.last() {
            HostCapability::Http { allowed_hosts } => prev + allowed_hosts@,
            _ => prev,
        }
    }
}

/// Plugin id to the keys of its global state that the `ReadPluginState`
/// capabilities of `caps` grant, in order.
pub open spec fn state_reads(caps: Seq<HostCapability>) -> Map<Seq<char>, Seq<String>>
    decreases caps.len(),
{
    if caps.len() == 0 {
        Map::empty()
    } else {
        let prev = state_reads(caps.drop_last());
        match caps.last() {
            HostCapability::ReadPluginState { plugin_id, keys } => prev.insert(
                plugin_id.0@,
                (if prev.contains_key(plugin_id.0@) { prev[plugin_id.0@] } else { Seq::empty() }) + keys@,
            ),
            _ => prev,
        }
    }
}

/// `g` holds exactly what the capabilities `caps` grant.
pub open spec fn grants_of(g: Grants, caps: Seq<HostCapability>) -> bool {
    &&& g.invocations@ == invoke_names(caps)
    &&& g.global_read@ == read_keys(caps)
    &&& g.global_write@ == write_keys(caps)
    &&& g.http_hosts@ == http_hosts_of(caps)
    &&& g.plugin_state_reads.wf()
    &&& g.plugin_state_reads@.map_values(|v: Vec<String>| v@) == state_reads(caps)
}

/// The number of `Custom` capabilities among the first `i` of `caps`.
pub open spec fn customs_before(caps: Seq<HostCapability>, i: int) -> nat
    decreases i,
{
    if i <= 0 {
        0
    } else {
        customs_before(caps, i - 1) + if caps[i - 1] is Custom { 1nat } else { 0nat }
    }
}

/// Position `j` holds the first name of `names` that `reg` does not register.
pub open spec fn first_unregistered(names: Seq<String>, reg: Map<Seq<char>, ()>, j: int) -> bool {
    &&& 0 <= j < names.len()
    &&& !reg.contains_key(names[j]@)
    &&& forall|k: int| 0 <= k < j ==> reg.contains_key((#[trigger] names[k])@)
}

/// Some name of `names` is not registered, when registration is checked.
pub open spec fn invoke_refused(names: Seq<String>, registered: Option<Map<Seq<char>, ()>>) -> bool {
    &&& registered is Some
    &&& exists|j: int| first_unregistered(names, registered->0, j)
}

/// The status of capability `i` of `caps`: 0 when it passes, 1 when it is refused, 2
/// when it waits for the answer of the host's check. `Invoke` names must be
/// registered when `registered` is given; a `Custom` capability passes when its
/// check (the answers in `outcomes`, one per `Custom` capability in order) passes.
pub open spec fn cap_status(
    caps: Seq<HostCapability>,
    i: int,
    registered: Option<Map<Seq<char>, ()>>,
    outcomes: Seq<Option<Result<(), String>>>,
) -> int {
    match caps[i] {
        HostCapability::Invoke { names } => if invoke_refused(names@, registered) {
            1
        } else {
            0
        },
        HostCapability::Custom { .. } => {
            let k = customs_before(caps, i);
            if k >= outcomes.len() {
                2
            } else if outcomes[k as int] matches Some(Ok(_)) {
                0
            } else {
                1
            }
        },
        _ => 0,
    }
}

/// Capability `i` is the first of `caps` that does not pass.
pub open spec fn first_stop(
    caps: Seq<HostCapability>,
    i: int,
    registered: Option<Map<Seq<char>, ()>>,
    outcomes: Seq<Option<Result<(), String>>>,
) -> bool {
    &&& 0 <= i < caps.len()
    &&& cap_status(caps, i, registered, outcomes) != 0
    &&& forall|j: int| 0 <= j < i ==> #[trigger] cap_status(caps, j, registered, outcomes) == 0
}

/// The error that refuses capability `i` of `caps` for `plugin`.
pub open spec fn cap_refusal(
    caps: Seq<HostCapability>,
    i: int,
    registered: Option<Map<Seq<char>, ()>>,
    outcomes: Seq<Option<Result<(), String>>>,
    plugin: PluginId,
    e: PluginRuntimeError,
) -> bool {
    match caps[i] {
        HostCapability::Invoke { names } => exists|j: int|
            first_unregistered(names@, registered->0, j) && (e matches PluginRuntimeError::CapabilityDenied {
                plugin: p,
                capability: c,
            } && p == plugin && c@ == "Invoke("@ + names@[j]@ + "): not registered"@),
        HostCapability::Custom { namespace, .. } => custom_check_error(
            plugin,
            namespace@,
            outcomes[customs_before(caps, i) as int],
            e,
        ),
        _ => false,
    }
}

/// Where granting stands.
pub enum GrantStep {
    /// Every capability passed.
    Granted(Grants),
    /// A capability was refused.
    Refused(PluginRuntimeError),
    /// Capability `i` is `Custom`: run the host's check for it and call again with its
    /// answer appended.
    Check(usize),
}

/// The registered invocation names as a map, if any.
pub open spec fn registered_view(r: Option<&KeyMap<String, ()>>) -> Option<Map<Seq<char>, ()>> {
    match r {
        Some(m) => Some(m@),
        None => None,
    }
}

/// `v` with `more` appended.
fn extend_strings(v: &mut Vec<String>, more: &Vec<String>)
    ensures
        final(v)@ == old(v)@ + more@,
{
    let ghost start = v@;
    for i in 0..more.len()
        invariant
            v@ == start + more@.take(i as int),
    {
        v.push(more[i].clone());
        proof {
            assert(start + more@.take(i + 1) =~= (start + more@.take(i as int)).push(more@[i as int]));
        }
    }
    proof {
        assert(more@.take(more@.len() as int) =~= more@);
    }
}

/// Grant the capabilities of `caps` to `plugin`, in order. An `Invoke` name must be
/// registered when `registered` is given (at build and install, not at reload). A
/// `Custom` capability is decided by the host's check for its namespace: `outcomes`
/// holds the answers so far (`None` when no check is registered), one per `Custom`
/// capability in order; when the next one is needed, the result says which.
pub fn grant_capabilities(
    plugin: &PluginId,
    caps: &Vec<HostCapability>,
    registered: Option<&KeyMap<String, ()>>,
    outcomes: &Vec<Option<Result<(), String>>>,
) -> (r: GrantStep)
    ensures
        match r {
            GrantStep::Granted(g) => (forall|i: int|
                0 <= i < caps@.len() ==> #[trigger] cap_status(caps@, i, registered_view(registered), outcomes@) == 0)
                && grants_of(g, caps@),
            GrantStep::Refused(e) => exists|i: int|
                first_stop(caps@, i, registered_view(registered), outcomes@) && cap_status(
                    caps@,
                    i,
                    registered_view(registered),
                    outcomes@,
                ) == 1 && cap_refusal(caps@, i, registered_view(registered), outcomes@, *plugin, e),
            GrantStep::Check(i) => first_stop(caps@, i as int, registered_view(registered), outcomes@)
                && cap_status(caps@, i as int, registered_view(registered), outcomes@) == 2,
        },
{
    let ghost reg = registered_view(registered);
    let mut g = Grants {
        invocations: Vec::new(),
        global_read: Vec::new(),
        global_write: Vec::new(),
        http_hosts: Vec::new(),
        plugin_state_reads: KeyMap::new(),
    };
    let mut k: usize = 0;
    proof {
        if let Some(m) = registered {
            use_type_invariant(m);
        }
        assert(caps@.take(0) =~= Seq::<HostCapability>::empty());
        assert(g.plugin_state_reads@.map_values(|v: Vec<String>| v@) =~= Map::<Seq<char>, Seq<String>>::empty());
    }
    for i in 0..caps.len()
        invariant
            reg == registered_view(registered),
            match registered {
                Some(m) => m.wf(),
                None => true,
            },
            forall|j: int| 0 <= j < i ==> #[trigger] cap_status(caps@, j, reg, outcomes@) == 0,
            grants_of(g, caps@.take(i as int)),
            k == customs_before(caps@, i as int),
    {
        let ghost pre = caps@.take(i as int);
        proof {
            assert(caps@.take(i + 1).drop_last() =~= pre);
            assert(caps@.take(i + 1).last() == caps@[i as int]);
        }
        match &caps[i] {
            HostCapability::Invoke { names } => {
                for j in 0..names.len()
                    invariant
                        reg == registered_view(registered),
                        match registered {
                            Some(m) => m.wf(),
                            None => true,
                        },
                        i < caps@.len(),
                        pre == caps@.take(i as int),
                        forall|q: int| 0 <= q < i ==> #[trigger] cap_status(caps@, q, reg, outcomes@) == 0,
                        caps@[i as int] == (HostCapability::Invoke { names: *names }),
                        g.invocations@ == invoke_names(pre) + names@.take(j as int),
                        g.global_read@ == read_keys(pre),
                        g.global_write@ == write_keys(pre),
                        g.http_hosts@ == http_hosts_of(pre),
                        g.plugin_state_reads.wf(),
                        g.plugin_state_reads@.map_values(|v: Vec<String>| v@) == state_reads(pre),
                        registered is Some ==> forall|q: int| 0 <= q < j ==> reg->0.contains_key((#[trigger] names@[q])@),
                {
                    let name = &names[j];
                    match registered {
                        Some(m) => {
                            if !m.contains_key(name.as_str()) {
                                proof {
                                    assert(reg == Some(m@));
                                    assert(first_unregistered(names@, m@, j as int));
                                    assert(exists|q: int| first_unregistered(names@, m@, q));
                                    assert(reg is Some);
                                    assert(reg->0 == m@);
                                    assert(first_unregistered(names@, reg->0, j as int));
                                    assert(invoke_refused(names@, reg));
                                    assert(cap_status(caps@, i as int, reg, outcomes@) == 1);
                                    assert(first_stop(caps@, i as int, reg, outcomes@));
                                }
                                let mut text = String::from_str("Invoke(");
                                text.append(name.as_str());
                                text.append("): not registered");
                                return GrantStep::Refused(
                                    PluginRuntimeError::CapabilityDenied { plugin: copy_plugin_id(plugin), capability: text },
                                );
                            }
                        },
                        None => {},
                    }
                    g.invocations.push(name.clone());
                    proof {
                        assert(invoke_names(pre) + names@.take(j + 1) =~= (invoke_names(pre) + names@.take(j as int)).push(names@[j as int]));
                    }
                }
                proof {
                    assert(names@.take(names@.len() as int) =~= names@);
                    if registered is Some {
                        assert(!exists|q: int| first_unregistered(names@, reg->0, q));
                        assert(!invoke_refused(names@, reg));
                    }
                }
            },
            HostCapability::GlobalStateRead { keys } => {
                extend_strings(&mut g.global_read, keys);
            },
            HostCapability::GlobalStateWrite { keys } => {
                extend_strings(&mut g.global_write, keys);
            },
            HostCapability::Http { allowed_hosts } => {
                extend_strings(&mut g.http_hosts, allowed_hosts);
            },
            HostCapability::ReadPluginState { plugin_id, keys } => {
                let ghost before = g.plugin_state_reads@;
                let mut list = match g.plugin_state_reads.remove(plugin_id.0.as_str()) {
                    Some(v) => v,
                    None => Vec::new(),
                };
                extend_strings(&mut list, keys);
                let ghost nl = list@;
                g.plugin_state_reads.insert(copy_plugin_id(plugin_id), list);
                proof {
                    let sr = state_reads(pre);
                    assert(g.plugin_state_reads@.map_values(|v: Vec<String>| v@) =~= sr.insert(
                        plugin_id.0@,
                        (if sr.contains_key(plugin_id.0@) { sr[plugin_id.0@] } else { Seq::empty() }) + keys@,
                    ));
                }
            },
            HostCapability::Custom { namespace, .. } => {
                if k >= outcomes.len() {
                    proof {
                        assert(first_stop(caps@, i as int, reg, outcomes@));
                    }
                    return GrantStep::Check(i);
                }
                match &outcomes[k] {
                    Some(Ok(())) => {},
                    other => {
                        let e = match other {
                            Some(Err(reason)) => PluginRuntimeError::CapabilityDenied {
                                plugin: copy_plugin_id(plugin),
                                capability: custom_capability_text(namespace.as_str(), reason.as_str()),
                            },
                            _ => PluginRuntimeError::CapabilityDenied {
                                plugin: copy_plugin_id(plugin),
                                capability: custom_capability_text(namespace.as_str(), "no check registered"),
                            },
                        };
                        proof {
                            assert(first_stop(caps@, i as int, reg, outcomes@));
                        }
                        return GrantStep::Refused(e);
                    },
                }
                k = k + 1;
            },
        }
    }
    proof {
        assert(caps@.take(caps@.len() as int) =~= caps@);
    }
    GrantStep::Granted(g)
}

/// `v` lists a string equal to `s`.
pub open spec fn lists(v: Seq<String>, s: Seq<char>) -> bool {
    exists|i: int| 0 <= i < v.len() && (#[trigger] v[i])@ == s
}

/// Whether `v` lists `s`.
fn contains_str(v: &Vec<String>, s: &str) -> (b: bool)
    ensures
        b == lists(v@, s@),
{
    for i in 0..v.len()
        invariant
            forall|j: int| 0 <= j < i ==> (#[trigger] v@[j])@ != s@,
    {
        if str_eq(v[i].as_str(), s) {
            return true;
        }
    }
    false
}

impl Grants {
    /// The plugin may call invocation `name`.
    pub fn allows_invocation(&self, name: &str) -> (b: bool)
        ensures
            b == lists(self.invocations@, name@),
    {
        contains_str(&self.invocations, name)
    }

    /// The plugin may read global key `key`: it was granted, or no read key was.
    pub fn allows_global_read(&self, key: &str) -> (b: bool)
        ensures
            b == (self.global_read@.len() == 0 || lists(self.global_read@, key@)),
    {
        self.global_read.len() == 0 || contains_str(&self.global_read, key)
    }

    /// The plugin may write global key `key`: it was granted. A plugin that declared
    /// no `GlobalStateWrite` capability may write no key.
    pub fn allows_global_write(&self, key: &str) -> (b: bool)
        ensures
            b == lists(self.global_write@, key@),
    {
        contains_str(&self.global_write, key)
    }

    /// The plugin may contact `host`: it was granted, or no host was.
    pub fn allows_http_host(&self, host: &str) -> (b: bool)
        ensures
            b == (self.http_hosts@.len() == 0 || lists(self.http_hosts@, host@)),
    {
        self.http_hosts.len() == 0 || contains_str(&self.http_hosts, host)
    }

    /// The plugin may read key `key` of plugin `target`'s global state: it declared
    /// `ReadPluginState` for `target`, listing `key` or no key at all.
    pub fn allows_plugin_state_read(&self, target: &PluginId, key: &str) -> (b: bool)
        ensures
            b == (self.plugin_state_reads@.contains_key(target.0@) && (
            self.plugin_state_reads@[target.0@]@.len() == 0 || lists(
                self.plugin_state_reads@[target.0@]@,
                key@,
            ))),
    {
        match self.plugin_state_reads.get(target.0.as_str()) {
            Some(keys) => keys.len() == 0 || contains_str(keys, key),
            None => false,
        }
    }
}

// ── HTTP hosts ──────────────────────────────────────────────────────────────

/// The first position at or after `i` where `"://"` starts in `s`, or -1.
pub open spec fn find_scheme_sep(s: Seq<char>, i: int) -> int
    decreases s.len() - i,
{
    if i < 0 || i + 3 > s.len() {
        -1
    } else if s[i] == ':' && s[i + 1] == '/' && s[i + 2] == '/' {
        i
    } else {
        find_scheme_sep(s, i + 1)
    }
}

/// The first position in `lo..hi` holding `c`, or `hi`.
pub open spec fn index_of_from(s: Seq<char>, c: char, lo: int, hi: int) -> int
    decreases hi - lo,
{
    if lo >= hi {
        hi
    } else if s[lo] == c {
        lo
    } else {
        index_of_from(s, c, lo + 1, hi)
    }
}

/// Where the authority of `url` lies: the text between the first `"://"` and the
/// next one (or the end); the whole URL when there is no `"://"`.
pub open spec fn authority_bounds(url: Seq<char>) -> (int, int) {
    let i = find_scheme_sep(url, 0);
    if i < 0 {
        (0, url.len() as int)
    } else {
        let j = find_scheme_sep(url, i + 3);
        if j < 0 {
            (i + 3, url.len() as int)
        } else {
            (i + 3, j)
        }
    }
}

/// The host that a plugin's HTTP request to `url` contacts: the authority, up to
/// the first `/`, up to the first `:`.
pub open spec fn request_host(url: Seq<char>) -> Seq<char> {
    let (a, b) = authority_bounds(url);
    let p = index_of_from(url, '/', a, b);
    let q = index_of_from(url, ':', a, p);
    url.subrange(a, q)
}

/// The first position at or after `i` where `"://"` starts in `s`.
fn scheme_sep(s: &Vec<char>, i: usize) -> (r: Option<usize>)
    ensures
        match r {
            Some(k) => k as int == find_scheme_sep(s@, i as int),
            None => find_scheme_sep(s@, i as int) == -1,
        },
{
    let mut k = i;
    while k < s.len() && s.len() - k >= 3
        invariant
            i <= k,
            find_scheme_sep(s@, i as int) == find_scheme_sep(s@, k as int),
        decreases s@.len() - k,
    {
        if s[k] == ':' && s[k + 1] == '/' && s[k + 2] == '/' {
            return Some(k);
        }
        k = k + 1;
    }
    None
}

/// The first position in `lo..hi` holding `c`, or `hi`.
fn index_of(s: &Vec<char>, c: char, lo: usize, hi: usize) -> (r: usize)
    requires
        lo <= hi <= s@.len(),
    ensures
        r as int == index_of_from(s@, c, lo as int, hi as int),
        lo <= r <= hi,
{
    let mut k = lo;
    while k < hi
        invariant
            lo <= k <= hi,
            hi <= s@.len(),
            index_of_from(s@, c, lo as int, hi as int) == index_of_from(s@, c, k as int, hi as int),
        decreases hi - k,
    {
        if s[k] == c {
            return k;
        }
        k = k + 1;
    }
    k
}

proof fn lemma_scheme_sep_bounds(s: Seq<char>, i: int)
    requires
        i >= 0,
    ensures
        find_scheme_sep(s, i) == -1 || (i <= find_scheme_sep(s, i) && find_scheme_sep(s, i) + 3 <= s.len()),
    decreases s.len() - i,
{
    if i + 3 <= s.len() && !(s[i] == ':' && s[i + 1] == '/' && s[i + 2] == '/') {
        lemma_scheme_sep_bounds(s, i + 1);
    }
}

proof fn lemma_index_of_bounds(s: Seq<char>, c: char, lo: int, hi: int)
    requires
        lo <= hi,
    ensures
        lo <= index_of_from(s, c, lo, hi) <= hi,
    decreases hi - lo,
{
    if lo < hi && s[lo] != c {
        lemma_index_of_bounds(s, c, lo + 1, hi);
    }
}

/// The host that a plugin's HTTP request to `url` contacts.
pub fn host_of_url(url: &str) -> (h: String)
    ensures
        h@ == request_host(url@),
{
    let cs = chars_of(url);
    let n = cs.len();
    proof {
        lemma_scheme_sep_bounds(cs@, 0);
    }
    let (a, b) = match scheme_sep(&cs, 0) {
        None => (0, n),
        Some(i) => {
            proof {
                lemma_scheme_sep_bounds(cs@, i + 3);
            }
            match scheme_sep(&cs, i + 3) {
                None => (i + 3, n),
                Some(j) => (i + 3, j),
            }
        },
    };
    let p = index_of(&cs, '/', a, b);
    let q = index_of(&cs, ':', a, p);
    slice_to_string(url, a, q)
}

} // verus!
