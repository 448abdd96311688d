//! Error types of the plugin host. Failures reported by outside libraries (I/O,
//! JSON, the WASM engine) are carried as their messages.

use vstd::prelude::*;

use crate::protocol::PluginId;

verus! {

/// `<std::time::Duration as Clone>::clone`: `Duration` is `Copy`, so its clone is the
/// same value.
pub assume_specification[ <std::time::Duration as Clone>::clone ](d: &std::time::Duration) -> (r:
    std::time::Duration)
    ensures
        r == *d,
;

/// Error returned by a host-provided manifest extension handler.
#[derive(Debug, Clone)]
#[non_exhaustive]
pub enum ManifestExtensionError {
    ValidationFailed { namespace: String, message: String },
    LoadFailed { namespace: String, message: String },
    UnloadFailed { namespace: String, message: String },
}

/// Errors from a host-side invocation called by a plugin.
#[derive(Debug, Clone)]
#[non_exhaustive]
pub enum InvocationError {
    NotFound(String),
    /// The arguments could not be decoded; the decoder's message.
    BadArgs(String),
    /// Structured failure reported by the host handler.
    Failed { code: u32, message: String },
    Timeout(std::time::Duration),
}

/// Errors of a plugin-state persistence backend.
#[derive(Debug, Clone)]
#[non_exhaustive]
pub enum PersistenceError {
    Io(String),
    Json(String),
    Custom(String),
}

/// Errors of plugin runtime operations.
#[derive(Debug, Clone)]
#[non_exhaustive]
pub enum PluginRuntimeError {
    PluginNotFound(PluginId),
    /// The WASM call failed; the engine's message.
    CallFailed { message: String },
    TaskPanic(String),
    ProtocolVersionMismatch { required: u32, host: u32 },
    ChecksumMismatch { url: String },
    FetchFailed { url: String, message: String },
    Io(String),
    Json(String),
    Pool(String),
    Invocation(InvocationError),
    PluginDisabled(PluginId),
    CapabilityDenied { plugin: PluginId, capability: String },
    Persistence(PersistenceError),
    ApiRouteConflict { method: String, path: String, first: PluginId, second: PluginId },
    PageRouteConflict { path: String, first: PluginId, second: PluginId },
    ManifestExtension { plugin: PluginId, source: ManifestExtensionError },
    UnknownManifestExtension { plugin: PluginId, namespace: String },
    UntrustedPlugin(PluginId),
}

/// Errors of plugin installation: dependency resolution and grants.
#[derive(Debug, Clone)]
#[non_exhaustive]
pub enum InstallError {
    DependencyMissing { plugin: PluginId, dependency: PluginId },
    DependencyVersionConflict {
        plugin: PluginId,
        dependency: PluginId,
        required: String,
        found: String,
    },
    FunctionNotPublic { plugin: PluginId, dependency: PluginId, function: String },
    CyclicDependency { cycle: Vec<PluginId> },
    Runtime(PluginRuntimeError),
}

} // verus!
