# dioxus_extism

A host for UI plugins compiled to WebAssembly. Plugins declare, in a manifest, what
they contribute to a host application: slot contents, route and component
transforms, transforms inside views, hook handlers, event subscriptions, API routes
and pages. The host loads them, checks them, and dispatches render-time requests to
them.

## Layout

- `src/` is the library, written in Verus and verified: the protocol types and their
  models, registries and how they are built from the loaded plugins, dependency
  graphs, install-time checks (protocol, trust, capabilities, extensions), the
  render-time decisions (which plugins a request reaches, what a failed or
  incompatible plugin contributes, how transform outputs combine), view-tree
  selection and rewriting, plugin state, and the plugin-side view builders.
  Calls into `semver`, `ring`, `sha2` and `serde_json` stand behind small trusted
  wrappers whose contracts say what is assumed of them.
- `app/` is ordinary Rust around the library: the JSON wire format, displayable
  errors, file and network I/O, the per-thread call session, and an async runtime
  that calls plugins through a WASM engine and hands their answers to the library.
- `tests/` exercises the library on concrete values.
