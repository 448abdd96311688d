//! Verified core of a WASM plugin host for UI applications.

pub mod bundle;
pub mod callsession;
pub mod config;
pub mod dep_graph;
pub mod dispatch;
pub mod errors;
pub mod install;
pub mod json;
pub mod keymap;
pub mod pdk;
pub mod persistence;
pub mod plugins;
pub mod protocol;
pub mod registry;
pub mod semver;
pub mod state;
pub mod testkit;
pub mod text;
pub mod tree;
pub mod trust;
pub mod viewtree;
pub mod within;
