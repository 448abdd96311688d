//! Types exchanged between the host and its plugins, and the rules that go with them:
//! route patterns, priorities, client requirements, selectors and view trees.

use vstd::prelude::*;

use crate::json::json_null;
use crate::keymap::{KeyMap, MapKey};
use crate::text::{slice_to_string, split_on, split_str};
use crate::viewtree::{AttrValue, PluginView};

verus! {

broadcast use vstd::string::group_string_axioms;

/// Bumped whenever a protocol type gains variants or fields that old clients cannot
/// handle. Increases monotonically.
pub const PROTOCOL_VERSION: u32 = 1;

// ── Identifiers ─────────────────────────────────────────────────────────────

/// `"org/plugin-name"`: the globally unique identifier of a plugin.
#[derive(Debug, Clone, PartialEq, Eq, Hash)]
pub struct PluginId(pub String);

impl Default for PluginId {
    fn default() -> (r: Self)
        ensures
            r.0@ == Seq::<char>::empty(),
    {
        PluginId(String::new())
    }
}

impl MapKey for PluginId {
    open spec fn key_view(&self) -> Seq<char> {
        self.0@
    }

    fn key_str(&self) -> (r: &str) {
        self.0.as_str()
    }
}

/// Opaque reference to an event handler inside a plugin's view.
#[derive(Debug, Clone, PartialEq, Eq, Hash)]
pub struct HandlerId(pub String);

/// Identifies a user session.
#[derive(Debug, Clone, PartialEq, Eq, Hash)]
pub struct SessionId(pub String);

impl MapKey for SessionId {
    open spec fn key_view(&self) -> Seq<char> {
        self.0@
    }

    fn key_str(&self) -> (r: &str) {
        self.0.as_str()
    }
}

/// A copy of a list of strings with the same contents.
pub fn copy_strings(v: &Vec<String>) -> (r: Vec<String>)
    ensures
        r@ == v@,
{
    let mut r: Vec<String> = Vec::new();
    for i in 0..v.len()
        invariant
            r@ == v@.take(i as int),
    {
        r.push(v[i].clone());
        assert(r@ =~= v@.take(i + 1));
    }
    assert(v@.take(v@.len() as int) =~= v@);
    r
}

/// A copy of a plugin id.
pub fn copy_plugin_id(p: &PluginId) -> (r: PluginId)
    ensures
        r == *p,
{
    PluginId(p.0.clone())
}

/// A copy of a session id.
pub fn copy_session_id(s: &SessionId) -> (r: SessionId)
    ensures
        r == *s,
{
    SessionId(s.0.clone())
}

// ── Route patterns ──────────────────────────────────────────────────────────

/// A URL path pattern whose `:name` segments bind parameters, e.g. `"/product/:id"`.
#[derive(Debug, Clone, PartialEq, Eq, Hash)]
pub struct RoutePattern(pub String);

/// A pattern segment that binds a parameter: it starts with `:`.
pub open spec fn is_param_segment(seg: Seq<char>) -> bool {
    seg.len() > 0 && seg[0] == ':'
}

/// The parameter name of a binding segment: the segment without its `:`.
pub open spec fn param_name(seg: Seq<char>) -> Seq<char> {
    seg.subrange(1, seg.len() as int)
}

/// Pattern and path have as many segments, and every literal pattern segment equals
/// the path segment at its position.
pub open spec fn segments_agree(pat: Seq<Seq<char>>, path: Seq<Seq<char>>) -> bool {
    &&& pat.len() == path.len()
    &&& forall|i: int| 0 <= i < pat.len() ==> is_param_segment(#[trigger] pat[i]) || pat[i] == path[i]
}

/// The parameters bound by the first `n` segments, later bindings of a name
/// replacing earlier ones.
pub open spec fn bound_params(pat: Seq<Seq<char>>, path: Seq<Seq<char>>, n: nat) -> Map<
    Seq<char>,
    Seq<char>,
>
    decreases n,
{
    if n == 0 {
        Map::empty()
    } else {
        let m = bound_params(pat, path, (n - 1) as nat);
        if is_param_segment(pat[n - 1]) {
            m.insert(param_name(pat[n - 1]), path[n - 1])
        } else {
            m
        }
    }
}

/// The parameters that `path` binds against `pattern`, or `None` when it does not match.
/// Both are split on `/`.
pub open spec fn route_params(pattern: Seq<char>, path: Seq<char>) -> Option<
    Map<Seq<char>, Seq<char>>,
> {
    let pat = split_on(pattern, '/');
    let segs = split_on(path, '/');
    if segments_agree(pat, segs) {
        Some(bound_params(pat, segs, pat.len()))
    } else {
        None
    }
}

/// `path` matches `pattern`.
pub open spec fn route_matches(pattern: Seq<char>, path: Seq<char>) -> bool {
    route_params(pattern, path) is Some
}

/// The string-to-string map a [`KeyMap`] of strings describes.
pub open spec fn string_map_view(m: KeyMap<String, String>) -> Map<Seq<char>, Seq<char>> {
    m.view().map_values(|v: String| v@)
}

/// Whether `seg` starts with `:`.
fn is_param(seg: &String) -> (b: bool)
    ensures
        b == is_param_segment(seg@),
{
    let s = seg.as_str();
    s.unicode_len() > 0 && s.get_char(0) == ':'
}

impl RoutePattern {
    /// Whether `path` matches this pattern.
    pub fn matches(&self, path: &str) -> (b: bool)
        ensures
            b == route_matches(self.0@, path@),
    {
        self.extract_params(path).is_some()
    }

    /// The named parameters of `path` if it matches this pattern, or `None`.
    pub fn extract_params(&self, path: &str) -> (r: Option<KeyMap<String, String>>)
        ensures
            match r {
                Some(m) => m.wf() && route_params(self.0@, path@) == Some(string_map_view(m)),
                None => route_params(self.0@, path@) is None,
            },
    {
        let pat = split_str(self.0.as_str(), '/');
        let segs = split_str(path, '/');
        let ghost pv = split_on(self.0@, '/');
        let ghost sv = split_on(path@, '/');
        if pat.len() != segs.len() {
            return None;
        }
        let mut params: KeyMap<String, String> = KeyMap::new();
        let n = pat.len();
        for i in 0..n
            invariant
                n == pat@.len(),
                n == segs@.len(),
                pv == split_on(self.0@, '/'),
                sv == split_on(path@, '/'),
                pv.len() == n,
                sv.len() == n,
                forall|j: int| 0 <= j < n ==> #[trigger] pat@[j]@ == pv[j],
                forall|j: int| 0 <= j < n ==> #[trigger] segs@[j]@ == sv[j],
                params.wf(),
                string_map_view(params) == bound_params(pv, sv, i as nat),
                forall|j: int| 0 <= j < i ==> is_param_segment(#[trigger] pv[j]) || pv[j] == sv[j],
        {
            if is_param(&pat[i]) {
                let seg = pat[i].as_str();
                let name = slice_to_string(seg, 1, seg.unicode_len());
                let ghost before = params.view();
                params.insert(name, segs[i].clone());
                proof {
                    assert(string_map_view(params) =~= before.map_values(|v: String| v@).insert(
                        param_name(pv[i as int]),
                        sv[i as int],
                    ));
                }
            } else {
                if !(pat[i] == segs[i]) {
                    proof {
                        assert(!is_param_segment(pv[i as int]) && pv[i as int] != sv[i as int]);
                        assert(!segments_agree(pv, sv));
                    }
                    return None;
                }
            }
        }
        Some(params)
    }
}

} // verus!

verus! {

// ── Client capabilities ─────────────────────────────────────────────────────

/// What a connecting client can handle; sent with every request.
#[derive(Debug, Clone)]
pub struct ClientCapabilities {
    /// The protocol version the client was compiled against.
    pub protocol_version: u32,
    /// The host application's own version number.
    pub app_version: u32,
    /// Host component names this client can render.
    pub registered_host_components: Vec<String>,
}

impl Default for ClientCapabilities {
    fn default() -> (r: Self)
        ensures
            r.protocol_version == 0,
            r.app_version == 0,
            r.registered_host_components@ == Seq::<String>::empty(),
    {
        ClientCapabilities { protocol_version: 0, app_version: 0, registered_host_components: Vec::new() }
    }
}

impl ClientCapabilities {
    /// Capabilities for server-side rendering, where no real client is connected: the
    /// current protocol version, app version 0, and no host components.
    pub fn default_ssr() -> (r: Self)
        ensures
            r.protocol_version == PROTOCOL_VERSION,
            r.app_version == 0,
            r.registered_host_components@ == Seq::<String>::empty(),
    {
        ClientCapabilities {
            protocol_version: PROTOCOL_VERSION,
            app_version: 0,
            registered_host_components: Vec::new(),
        }
    }

    /// A copy with the same contents.
    pub fn copy(&self) -> (r: Self)
        ensures
            r@ == self@,
    {
        let r = ClientCapabilities {
            protocol_version: self.protocol_version,
            app_version: self.app_version,
            registered_host_components: copy_strings(&self.registered_host_components),
        };
        r
    }
}

/// The contents of a [`ClientCapabilities`].
pub ghost struct ClientView {
    pub protocol_version: u32,
    pub app_version: u32,
    pub host_components: Seq<Seq<char>>,
}

/// The character sequences of a list of strings.
pub open spec fn strings_view(v: Seq<String>) -> Seq<Seq<char>> {
    v.map_values(|s: String| s@)
}

impl View for ClientCapabilities {
    type V = ClientView;

    open spec fn view(&self) -> ClientView {
        ClientView {
            protocol_version: self.protocol_version,
            app_version: self.app_version,
            host_components: strings_view(self.registered_host_components@),
        }
    }
}

/// Published to the client when loaded plugins need a newer client than the connected one.
#[derive(Debug, Clone)]
pub struct AppUpdateRequired {
    pub current_protocol: u32,
    pub required_protocol: u32,
    pub current_app: u32,
    pub required_app: u32,
    /// The plugins that raise the requirement.
    pub blocking_plugins: Vec<PluginId>,
}

/// The client requirements of one plugin.
#[derive(Debug, Clone)]
pub struct PluginClientRequirement {
    pub min_protocol_version: u32,
    pub min_app_version: u32,
    /// Host component names the plugin's views refer to.
    pub required_host_components: Vec<String>,
}

// ── Priority ────────────────────────────────────────────────────────────────

/// A plugin's suggested position in an ordered sequence of contributions.
#[derive(Debug, Clone, Copy, PartialEq, Eq)]
#[non_exhaustive]
pub enum PriorityHint {
    /// Before all others (security, authentication, rate limiting).
    First,
    /// Earlier than average.
    High,
    /// No preference.
    Normal,
    /// Later than average.
    Low,
    /// After all others (analytics, logging, auditing).
    Last,
}

impl Default for PriorityHint {
    fn default() -> (r: Self)
        ensures
            r == PriorityHint::Normal,
    {
        PriorityHint::Normal
    }
}

/// The numeric bucket of a priority hint; higher comes first.
pub open spec fn hint_numeric(h: PriorityHint) -> i32 {
    match h {
        PriorityHint::First => 1000,
        PriorityHint::High => 750,
        PriorityHint::Normal => 500,
        PriorityHint::Low => 250,
        PriorityHint::Last => 0,
    }
}

impl PriorityHint {
    /// The numeric bucket used for ordering.
    pub fn as_numeric(&self) -> (n: i32)
        ensures
            n == hint_numeric(*self),
    {
        match self {
            PriorityHint::First => 1000,
            PriorityHint::High => 750,
            PriorityHint::Normal => 500,
            PriorityHint::Low => 250,
            PriorityHint::Last => 0,
        }
    }
}

// ── Manifest parts ──────────────────────────────────────────────────────────

/// Where a plugin keeps its state.
#[derive(Debug, Clone)]
#[non_exhaustive]
pub enum StateScope {
    PerSession,
    Global,
    Hybrid { global_keys: Vec<String>, session_keys: Vec<String> },
}

impl Default for StateScope {
    fn default() -> (r: Self)
        ensures
            r is PerSession,
    {
        StateScope::PerSession
    }
}

/// One slot a plugin contributes to.
#[derive(Debug, Clone)]
pub struct SlotRegistration {
    pub name: String,
    pub priority_hint: PriorityHint,
}

/// One hook a plugin intercepts.
#[derive(Debug, Clone)]
pub struct HookRegistration {
    pub hook_name: String,
    pub priority_hint: PriorityHint,
}

/// A host capability a plugin requests.
#[derive(Debug, Clone)]
#[non_exhaustive]
pub enum HostCapability {
    Http { allowed_hosts: Vec<String> },
    GlobalStateRead { keys: Vec<String> },
    GlobalStateWrite { keys: Vec<String> },
    ReadPluginState { plugin_id: PluginId, keys: Vec<String> },
    /// Permission to call the named host-side invocations.
    Invoke { names: Vec<String> },
    /// A host-defined capability class; `value` is interpreted by the host's check.
    /// Without a check registered for `namespace` it is denied.
    Custom { namespace: String, value: serde_json::Value },
}

/// A semantic-version requirement such as `"^1.2"` or `"*"`.
#[derive(Debug, Clone, PartialEq, Eq)]
pub struct VersionConstraint(pub String);

/// A plugin's declared dependency on another plugin.
#[derive(Debug, Clone)]
pub struct PluginDependency {
    /// The plugin depended on.
    pub id: PluginId,
    /// The versions of it that are acceptable.
    pub version: VersionConstraint,
    /// A required dependency must be installed; an optional one may be absent.
    pub required: bool,
    /// The dependency's public functions this plugin calls.
    pub functions: Vec<String>,
}

impl PluginDependency {
    /// A dependency on `id` at `version`.
    pub fn new(id: &str, version: &str, required: bool, functions: Vec<String>) -> (d: Self)
        ensures
            d.id.0@ == id@,
            d.version.0@ == version@,
            d.required == required,
            d.functions == functions,
    {
        PluginDependency {
            id: PluginId(id.to_owned()),
            version: VersionConstraint(version.to_owned()),
            required,
            functions,
        }
    }
}

// ── HTTP routes ─────────────────────────────────────────────────────────────

/// An outbound HTTP request a plugin asks the host to make.
#[derive(Debug, Clone)]
pub struct HttpRequest {
    pub method: String,
    pub url: String,
    pub headers: KeyMap<String, String>,
    pub body: Option<String>,
}

/// The response handed back to a plugin after an outbound request.
#[derive(Debug, Clone)]
pub struct HttpResponse {
    pub status: u16,
    pub headers: KeyMap<String, String>,
    pub body: String,
}

/// HTTP method of a plugin-declared inbound route.
#[derive(Debug, Clone, Copy, PartialEq, Eq, Hash)]
#[non_exhaustive]
pub enum HttpMethod {
    Get,
    Post,
    Put,
    Patch,
    Delete,
}

/// The upper-case name of a method.
pub open spec fn method_name(m: HttpMethod) -> Seq<char> {
    match m {
        HttpMethod::Get => "GET"@,
        HttpMethod::Post => "POST"@,
        HttpMethod::Put => "PUT"@,
        HttpMethod::Patch => "PATCH"@,
        HttpMethod::Delete => "DELETE"@,
    }
}

impl HttpMethod {
    /// The method as an upper-case string.
    pub fn as_str(&self) -> (s: &'static str)
        ensures
            s@ == method_name(*self),
    {
        match self {
            HttpMethod::Get => "GET",
            HttpMethod::Post => "POST",
            HttpMethod::Put => "PUT",
            HttpMethod::Patch => "PATCH",
            HttpMethod::Delete => "DELETE",
        }
    }
}

/// An inbound HTTP route a plugin declares in its manifest.
#[derive(Debug, Clone)]
pub struct ApiRouteDeclaration {
    pub method: HttpMethod,
    /// Full path with `:param` segments, e.g. `"/api/notes/:id"`.
    pub path: String,
    /// The plugin export that handles the route.
    pub handler_fn: String,
}

impl ApiRouteDeclaration {
    fn with_method(method: HttpMethod, path: &str, handler_fn: &str) -> (d: Self)
        ensures
            d.method == method,
            d.path@ == path@,
            d.handler_fn@ == handler_fn@,
    {
        ApiRouteDeclaration { method, path: path.to_owned(), handler_fn: handler_fn.to_owned() }
    }

    /// A `GET` route handled by `handler_fn`.
    pub fn get(path: &str, handler_fn: &str) -> (d: Self)
        ensures
            d.method == HttpMethod::Get,
            d.path@ == path@,
            d.handler_fn@ == handler_fn@,
    {
        Self::with_method(HttpMethod::Get, path, handler_fn)
    }

    /// A `POST` route handled by `handler_fn`.
    pub fn post(path: &str, handler_fn: &str) -> (d: Self)
        ensures
            d.method == HttpMethod::Post,
            d.path@ == path@,
            d.handler_fn@ == handler_fn@,
    {
        Self::with_method(HttpMethod::Post, path, handler_fn)
    }

    /// A `PUT` route handled by `handler_fn`.
    pub fn put(path: &str, handler_fn: &str) -> (d: Self)
        ensures
            d.method == HttpMethod::Put,
            d.path@ == path@,
            d.handler_fn@ == handler_fn@,
    {
        Self::with_method(HttpMethod::Put, path, handler_fn)
    }

    /// A `PATCH` route handled by `handler_fn`.
    pub fn patch(path: &str, handler_fn: &str) -> (d: Self)
        ensures
            d.method == HttpMethod::Patch,
            d.path@ == path@,
            d.handler_fn@ == handler_fn@,
    {
        Self::with_method(HttpMethod::Patch, path, handler_fn)
    }

    /// A `DELETE` route handled by `handler_fn`.
    pub fn delete(path: &str, handler_fn: &str) -> (d: Self)
        ensures
            d.method == HttpMethod::Delete,
            d.path@ == path@,
            d.handler_fn@ == handler_fn@,
    {
        Self::with_method(HttpMethod::Delete, path, handler_fn)
    }
}

/// Request delivered to a plugin's API handler.
#[derive(Debug, Clone)]
pub struct ApiRequest {
    pub path_params: KeyMap<String, String>,
    pub query_params: KeyMap<String, String>,
    pub headers: KeyMap<String, String>,
    pub body: Option<serde_json::Value>,
}

/// Response returned by a plugin's API handler.
#[derive(Debug, Clone)]
pub struct ApiResponse {
    pub status: u16,
    pub headers: KeyMap<String, String>,
    pub body: Option<serde_json::Value>,
}

impl Default for ApiResponse {
    fn default() -> (r: Self)
        ensures
            r.status == 200,
            r.headers.wf(),
            r.headers.view() == Map::<Seq<char>, String>::empty(),
            r.body is None,
    {
        ApiResponse { status: 200, headers: KeyMap::new(), body: None }
    }
}

/// A page a plugin serves under the host's page prefix.
#[derive(Debug, Clone)]
pub struct PageRouteDeclaration {
    /// Path relative to the prefix, with `:param` segments.
    pub path: String,
    pub title: Option<String>,
    /// The plugin export that renders the page.
    pub render_fn: String,
    /// The page wants no host layout around it.
    pub bypass_layout: bool,
}

// ── Session ─────────────────────────────────────────────────────────────────

/// Session and caller context threaded through every plugin call.
#[derive(Debug, Clone)]
pub struct SessionCtx {
    pub session_id: SessionId,
    pub user_id: Option<String>,
    /// Capabilities of the client that made the request.
    pub client: ClientCapabilities,
    /// The plugin making the call, set by the host.
    pub caller: Option<PluginId>,
}

impl Default for SessionCtx {
    fn default() -> (r: Self)
        ensures
            r.session_id.0@ == Seq::<char>::empty(),
            r.user_id is None,
            r.client.protocol_version == 0,
            r.client.app_version == 0,
            r.client.registered_host_components@ == Seq::<String>::empty(),
            r.caller is None,
    {
        SessionCtx {
            session_id: SessionId(String::new()),
            user_id: None,
            client: ClientCapabilities::default(),
            caller: None,
        }
    }
}

/// The contents of a [`SessionCtx`].
pub ghost struct SessionView {
    pub session_id: Seq<char>,
    pub user_id: Option<Seq<char>>,
    pub client: ClientView,
    pub caller: Option<Seq<char>>,
}

impl View for SessionCtx {
    type V = SessionView;

    open spec fn view(&self) -> SessionView {
        SessionView {
            session_id: self.session_id.0@,
            user_id: match self.user_id {
                Some(u) => Some(u@),
                None => None,
            },
            client: self.client@,
            caller: match self.caller {
                Some(c) => Some(c.0@),
                None => None,
            },
        }
    }
}

impl SessionCtx {
    /// A copy with the same contents.
    pub fn copy(&self) -> (r: Self)
        ensures
            r@ == self@,
    {
        SessionCtx {
            session_id: copy_session_id(&self.session_id),
            user_id: match &self.user_id {
                Some(u) => Some(u.clone()),
                None => None,
            },
            client: self.client.copy(),
            caller: match &self.caller {
                Some(c) => Some(copy_plugin_id(c)),
                None => None,
            },
        }
    }
}

/// Input to a page route's render export.
#[derive(Debug, Clone)]
pub struct PageRouteInput {
    pub path_params: KeyMap<String, String>,
    pub query_params: KeyMap<String, String>,
    pub session: SessionCtx,
}

} // verus!

verus! {

// ── Selectors ───────────────────────────────────────────────────────────────

/// Selects nodes within a view tree. Matching is shallow (direct children of the outer
/// selection) unless wrapped in [`NodeSelector::Recursive`].
#[derive(Debug)]
#[non_exhaustive]
pub enum NodeSelector {
    /// Elements with this tag.
    Tag(String),
    /// Elements whose class list holds this class.
    HasClass(String),
    /// Host component references with this name.
    HostComponent(String),
    /// Elements whose `name` is this string.
    Name(String),
    /// Elements carrying attribute `key` with string value `value`.
    DataAttr(String, String),
    /// The first child of the outer selection.
    First,
    /// The last child of the outer selection.
    Last,
    /// The child at this 0-based index.
    Index(usize),
    /// Both selectors match.
    And(Box<NodeSelector>, Box<NodeSelector>),
    /// Either selector matches.
    Or(Box<NodeSelector>, Box<NodeSelector>),
    /// The inner selector, applied at any depth.
    Recursive(Box<NodeSelector>),
}

/// A copy of a node selector.
pub fn copy_node_selector(s: &NodeSelector) -> (r: NodeSelector)
    ensures
        r == *s,
    decreases s,
{
    match s {
        NodeSelector::Tag(t) => NodeSelector::Tag(t.clone()),
        NodeSelector::HasClass(c) => NodeSelector::HasClass(c.clone()),
        NodeSelector::HostComponent(n) => NodeSelector::HostComponent(n.clone()),
        NodeSelector::Name(n) => NodeSelector::Name(n.clone()),
        NodeSelector::DataAttr(k, v) => NodeSelector::DataAttr(k.clone(), v.clone()),
        NodeSelector::First => NodeSelector::First,
        NodeSelector::Last => NodeSelector::Last,
        NodeSelector::Index(i) => NodeSelector::Index(*i),
        NodeSelector::And(a, b) => NodeSelector::And(
            Box::new(copy_node_selector(a)),
            Box::new(copy_node_selector(b)),
        ),
        NodeSelector::Or(a, b) => NodeSelector::Or(
            Box::new(copy_node_selector(a)),
            Box::new(copy_node_selector(b)),
        ),
        NodeSelector::Recursive(a) => NodeSelector::Recursive(Box::new(copy_node_selector(a))),
    }
}

impl Clone for NodeSelector {
    fn clone(&self) -> (r: Self)
        ensures
            r == *self,
    {
        copy_node_selector(self)
    }
}

/// Addresses a point of the rendered output that a transform can target.
#[derive(Debug)]
#[non_exhaustive]
pub enum Selector {
    /// A named overridable component boundary.
    Component(String),
    /// A named slot: its list of contributions.
    Slot(String),
    /// An element carrying `data-plugin-slot="value"` inside any plugin view.
    DataPluginSlot(String),
    /// The rendered output of routes matching this pattern.
    Route(RoutePattern),
    /// Nodes within the view produced by `outer`.
    Within { outer: Box<Selector>, inner: NodeSelector },
    /// Any of the listed selectors.
    Any(Vec<Selector>),
}

/// Two selectors address the same target: both name the same component, slot,
/// data-plugin-slot or route pattern. `Within` and `Any` never compare equal.
pub open spec fn same_target(a: Selector, b: Selector) -> bool {
    match (a, b) {
        (Selector::Slot(x), Selector::Slot(y)) => x@ == y@,
        (Selector::Component(x), Selector::Component(y)) => x@ == y@,
        (Selector::DataPluginSlot(x), Selector::DataPluginSlot(y)) => x@ == y@,
        (Selector::Route(x), Selector::Route(y)) => x.0@ == y.0@,
        _ => false,
    }
}

/// The target a selector addresses, when it addresses one directly: its kind
/// (component, slot, data-plugin-slot, route) and name or pattern.
pub open spec fn selector_key(s: Selector) -> Option<(int, Seq<char>)> {
    match s {
        Selector::Component(x) => Some((0, x@)),
        Selector::Slot(x) => Some((1, x@)),
        Selector::DataPluginSlot(x) => Some((2, x@)),
        Selector::Route(x) => Some((3, x.0@)),
        _ => None,
    }
}

/// Whether two selectors address the same target.
pub fn selectors_equal(a: &Selector, b: &Selector) -> (r: bool)
    ensures
        r == same_target(*a, *b),
{
    match (a, b) {
        (Selector::Slot(x), Selector::Slot(y)) => *x == *y,
        (Selector::Component(x), Selector::Component(y)) => *x == *y,
        (Selector::DataPluginSlot(x), Selector::DataPluginSlot(y)) => *x == *y,
        (Selector::Route(x), Selector::Route(y)) => x.0 == y.0,
        _ => false,
    }
}

/// A copy of a selector. Component, slot and route selectors are copied exactly.
pub fn copy_selector(s: &Selector) -> (r: Selector)
    ensures
        !(s is Within || s is Any) ==> r == *s,
        s is Within <==> r is Within,
        s is Any <==> r is Any,
    decreases s,
{
    match s {
        Selector::Component(x) => Selector::Component(x.clone()),
        Selector::Slot(x) => Selector::Slot(x.clone()),
        Selector::DataPluginSlot(x) => Selector::DataPluginSlot(x.clone()),
        Selector::Route(p) => Selector::Route(RoutePattern(p.0.clone())),
        Selector::Within { outer, inner } => Selector::Within {
            outer: Box::new(copy_selector(outer)),
            inner: copy_node_selector(inner),
        },
        Selector::Any(v) => {
            let mut out: Vec<Selector> = Vec::new();
            for i in 0..v.len()
                invariant
                    s is Any,
                    (*s)->Any_0 == *v,
            {
                proof {
                    assert(decreases_to!(*s => (*s)->Any_0));
                    assert(decreases_to!((*s)->Any_0 => (*s)->Any_0@));
                    assert(decreases_to!((*s)->Any_0@ => (*s)->Any_0@[i as int]));
                }
                out.push(copy_selector(&v[i]));
            }
            Selector::Any(out)
        },
    }
}

impl Clone for Selector {
    fn clone(&self) -> (r: Self)
        ensures
            !(self is Within || self is Any) ==> r == *self,
            self is Within <==> r is Within,
            self is Any <==> r is Any,
    {
        copy_selector(self)
    }
}

// ── Transforms ──────────────────────────────────────────────────────────────

/// What a transform does to its target.
#[derive(Debug, Clone, PartialEq)]
#[non_exhaustive]
pub enum TransformOp {
    /// Render the plugin view before the target.
    InjectBefore,
    /// Render the plugin view after the target.
    InjectAfter,
    /// Wrap the target; the view may hold the `__content__` placeholder.
    Wrap,
    /// Replace a route's rendered output entirely (subject to the host's policy).
    RouteReplace,
    /// Replace the selected node.
    Replace,
    /// Wrap the selected node; the view may hold the `__target__` placeholder.
    WrapNode,
    /// Insert the plugin view before the selected node.
    InsertBefore,
    /// Insert the plugin view after the selected node.
    InsertAfter,
    /// Add a CSS class to the selected node.
    AddClass(String),
    /// Set an attribute on the selected node.
    SetAttr(String, AttrValue),
}

/// A dynamic extension: a target, an operation, and the export that renders it.
#[derive(Debug, Clone)]
pub struct TransformDeclaration {
    pub selector: Selector,
    /// Plugin export called at render time.
    pub transform_fn: String,
    pub op: TransformOp,
    pub priority_hint: PriorityHint,
}

/// Context handed to a transform call.
#[derive(Debug, Clone)]
pub struct TransformContext {
    pub route_params: KeyMap<String, String>,
    pub component_props: Option<serde_json::Value>,
    pub slot_name: Option<String>,
    pub client: ClientCapabilities,
}

/// Input to a plugin's transform export.
#[derive(Debug, Clone)]
pub struct TransformInput {
    /// The current content at the target, for wrapping and replacing operations.
    pub original: Option<PluginView>,
    pub context: TransformContext,
    pub session: SessionCtx,
}

/// Output of a plugin's transform export.
#[derive(Debug, Clone)]
pub struct TransformOutput {
    pub view: PluginView,
}

// ── Hooks and events ────────────────────────────────────────────────────────

/// Input to a plugin's hook handler.
#[derive(Debug, Clone)]
pub struct HookCall {
    pub hook_name: String,
    pub context: serde_json::Value,
}

/// What a hook handler decided.
#[derive(Debug, Clone)]
#[non_exhaustive]
pub enum HookResult {
    Continue { context: serde_json::Value },
    Cancel { reason: String },
    Replace { context: serde_json::Value },
}

/// Where an event came from.
#[derive(Debug, Clone)]
#[non_exhaustive]
pub enum EventSource {
    Host,
    Plugin(PluginId),
}

/// An event routed through the event bus.
#[derive(Debug, Clone)]
pub struct PluginEvent {
    pub source: EventSource,
    pub name: String,
    pub payload: serde_json::Value,
}

// ── Contributions ───────────────────────────────────────────────────────────

/// One plugin's contribution to a slot.
#[derive(Debug, Clone, PartialEq)]
pub struct SlotContent {
    pub plugin_id: PluginId,
    pub priority: i32,
    pub view: PluginView,
}

/// Returned by a plugin's interaction handler: an optional new view and events to emit.
#[derive(Debug, Clone)]
pub struct ViewUpdate {
    pub view: Option<PluginView>,
    pub events: Vec<PluginEvent>,
}

/// Served at startup and after each reload: what plugins currently affect.
#[derive(Debug, Clone)]
pub struct OverrideMap {
    /// Increases with every change.
    pub version: u64,
    pub overridden_components: KeyMap<String, ()>,
    pub transformed_slots: KeyMap<String, ()>,
    pub route_patterns: Vec<RoutePattern>,
    /// Largest `min_protocol_version` over loaded plugins.
    pub required_protocol_version: u32,
    /// Largest `min_app_version` over loaded plugins.
    pub required_app_version: u32,
    pub plugin_requirements: KeyMap<PluginId, PluginClientRequirement>,
    /// URL prefix under which plugin pages are served.
    pub page_route_prefix: Option<String>,
}

/// Transforms resolved for one component.
#[derive(Debug, Clone)]
pub struct ComponentResolution {
    pub before: Vec<PluginView>,
    pub replacement: Option<PluginView>,
    pub after: Vec<PluginView>,
}

/// Route transforms resolved for the current path.
#[derive(Debug, Clone)]
pub struct RouteTransforms {
    pub before: Vec<PluginView>,
    pub wrap: Option<PluginView>,
    pub after: Vec<PluginView>,
    /// A plugin's replacement for the route's own output.
    pub replacement: Option<PluginView>,
}

impl RouteTransforms {
    /// No contributions.
    pub fn empty() -> (r: Self)
        ensures
            r.before@.len() == 0,
            r.wrap is None,
            r.after@.len() == 0,
            r.replacement is None,
    {
        RouteTransforms { before: Vec::new(), wrap: None, after: Vec::new(), replacement: None }
    }

    /// Whether every part is empty.
    pub fn is_empty(&self) -> (b: bool)
        ensures
            b == (self.before@.len() == 0 && self.wrap is None && self.after@.len() == 0
                && self.replacement is None),
    {
        self.before.len() == 0 && self.wrap.is_none() && self.after.len() == 0
            && self.replacement.is_none()
    }

    /// Whether a wrapping transform was resolved.
    pub fn has_wrap(&self) -> (b: bool)
        ensures
            b == self.wrap is Some,
    {
        self.wrap.is_some()
    }

    /// Whether a route replacement was resolved.
    pub fn has_replacement(&self) -> (b: bool)
        ensures
            b == self.replacement is Some,
    {
        self.replacement.is_some()
    }

    /// What stands between the injected views of a route: the wrapper around the
    /// replacement, or around the route's own content when there is none; else the
    /// replacement alone; else the route's own content.
    pub fn body(&self) -> (b: RouteBody)
        ensures
            match self.wrap {
                Some(w) => b matches RouteBody::Wrap { wrapper, content } && wrapper@ == w@ && match (
                    content,
                    self.replacement,
                ) {
                    (Some(c), Some(r)) => c@ == r@,
                    (None, None) => true,
                    _ => false,
                },
                None => match self.replacement {
                    Some(r) => b matches RouteBody::Replace(v) && v@ == r@,
                    None => b is Outlet,
                },
            },
    {
        let content = match &self.replacement {
            Some(r) => Some(r.clone()),
            None => None,
        };
        match &self.wrap {
            Some(w) => RouteBody::Wrap { wrapper: w.clone(), content },
            None => match content {
                Some(r) => RouteBody::Replace(r),
                None => RouteBody::Outlet,
            },
        }
    }
}

/// The middle of a rendered route (see [`RouteTransforms::body`]).
#[derive(Debug, Clone)]
pub enum RouteBody {
    /// The wrapper, whose `__content__` placeholder holds `content`, or the route's own
    /// content when `content` is none.
    Wrap { wrapper: PluginView, content: Option<PluginView> },
    /// A plugin's replacement of the route's content.
    Replace(PluginView),
    /// The route's own content.
    Outlet,
}

/// A rendered plugin page.
#[derive(Debug, Clone)]
pub struct PageRouteOutput {
    pub view: PluginView,
    pub bypass_layout: bool,
    pub title: Option<String>,
}

/// Route transforms as a server render hands them to the page.
#[derive(Debug, Clone)]
pub struct SsrRouteTransforms {
    pub before: Vec<PluginView>,
    pub wrap: Option<PluginView>,
    pub after: Vec<PluginView>,
    pub replacement: Option<PluginView>,
}

/// A component's resolution as a server render hands it to the page.
#[derive(Debug, Clone)]
pub struct SsrComponentResolution {
    pub before: Vec<PluginView>,
    pub replacement: Option<PluginView>,
    pub after: Vec<PluginView>,
}

/// Everything a server render of one route prefetches: its route transforms, each
/// slot's contents, and each overridden component's resolution.
#[derive(Debug, Clone)]
pub struct SsrRouteOutput {
    pub route_transforms: SsrRouteTransforms,
    pub slots: KeyMap<String, Vec<SlotContent>>,
    pub components: KeyMap<String, Option<SsrComponentResolution>>,
}

// ── Manifest ────────────────────────────────────────────────────────────────

/// What a plugin declares about itself.
#[derive(Debug, Clone)]
pub struct PluginManifest {
    pub id: PluginId,
    pub version: String,
    /// Least protocol version the client must have.
    pub min_protocol_version: u32,
    /// Least host application version required.
    pub min_app_version: u32,
    /// Host component names the plugin's views refer to.
    pub required_host_components: Vec<String>,
    pub state_scope: StateScope,
    pub slots: Vec<SlotRegistration>,
    pub hooks: Vec<HookRegistration>,
    pub event_subscriptions: Vec<String>,
    pub transforms: Vec<TransformDeclaration>,
    pub host_capabilities: Vec<HostCapability>,
    pub api_routes: Vec<ApiRouteDeclaration>,
    pub page_routes: Vec<PageRouteDeclaration>,
    /// Host-defined extensions by namespace; the values are owned by the host.
    pub extensions: KeyMap<String, serde_json::Value>,
}

impl Default for PluginManifest {
    fn default() -> (r: Self)
        ensures
            r.id.0@ == Seq::<char>::empty(),
            r.version@ == Seq::<char>::empty(),
            r.min_protocol_version == 0,
            r.min_app_version == 0,
            r.required_host_components@.len() == 0,
            r.state_scope is PerSession,
            r.slots@.len() == 0,
            r.hooks@.len() == 0,
            r.event_subscriptions@.len() == 0,
            r.transforms@.len() == 0,
            r.host_capabilities@.len() == 0,
            r.api_routes@.len() == 0,
            r.page_routes@.len() == 0,
            r.extensions.wf(),
            r.extensions.view() == Map::<Seq<char>, serde_json::Value>::empty(),
    {
        PluginManifest {
            id: PluginId::default(),
            version: String::new(),
            min_protocol_version: 0,
            min_app_version: 0,
            required_host_components: Vec::new(),
            state_scope: StateScope::PerSession,
            slots: Vec::new(),
            hooks: Vec::new(),
            event_subscriptions: Vec::new(),
            transforms: Vec::new(),
            host_capabilities: Vec::new(),
            api_routes: Vec::new(),
            page_routes: Vec::new(),
            extensions: KeyMap::new(),
        }
    }
}


// ── Laws on methods and targets ─────────────────────────────────────────────

/// Distinct HTTP methods have distinct names: a method's name determines the
/// method, so two routes keyed by method name and path on different methods never
/// share a key.
pub proof fn law_method_names_distinct(a: HttpMethod, b: HttpMethod)
    ensures
        method_name(a) == method_name(b) ==> a == b,
        a != b ==> method_name(a) != method_name(b),
{
    reveal_strlit("GET");
    reveal_strlit("POST");
    reveal_strlit("PUT");
    reveal_strlit("PATCH");
    reveal_strlit("DELETE");
    if a != b {
        assert(method_name(a).len() != method_name(b).len() || method_name(a)[0] != method_name(b)[0]
            || method_name(a)[1] != method_name(b)[1]);
    }
}

/// Two selectors address the same target exactly when they are of one kind
/// (component, slot, data-plugin-slot or route) and carry the same name or
/// pattern; `Within` and `Any` address none directly. The relation is symmetric.
pub proof fn law_same_target(a: Selector, b: Selector)
    ensures
        same_target(a, b) <==> (selector_key(a) is Some && selector_key(a) == selector_key(b)),
        same_target(a, b) == same_target(b, a),
{
}

/// Two component selectors address the same target only when they name the same
/// component, and a component selector never addresses the target of a slot,
/// data-plugin-slot or route selector.
pub proof fn law_component_targets(x: String, y: String, p: RoutePattern)
    ensures
        same_target(Selector::Component(x), Selector::Component(y)) <==> x@ == y@,
        !same_target(Selector::Component(x), Selector::Slot(y)),
        !same_target(Selector::Component(x), Selector::DataPluginSlot(y)),
        !same_target(Selector::Component(x), Selector::Route(p)),
        same_target(Selector::Slot(x), Selector::Slot(y)) <==> x@ == y@,
        same_target(Selector::DataPluginSlot(x), Selector::DataPluginSlot(y)) <==> x@ == y@,
{
}

} // verus!
