//! Where the JSON-file persistence backend keeps each plugin's global state.

use vstd::prelude::*;

use crate::config::{join_path, joined_path};
use crate::dispatch::{concat, replace_char};
use crate::protocol::PluginId;

verus! {

/// JSON-file persistence of plugin global state: one `.json` file per plugin under
/// `dir`.
pub struct JsonFilePersistence {
    /// The directory of the state files.
    pub dir: std::path::PathBuf,
}

/// The file name of plugin `id`'s state: its id with `/` as `_`, and `.json`.
pub open spec fn state_file_name(id: Seq<char>) -> Seq<char> {
    id.map_values(|c: char| if c == '/' { '_' } else { c }) + ".json"@
}

impl JsonFilePersistence {
    /// A backend writing to `dir`.
    pub fn new(dir: std::path::PathBuf) -> (p: Self)
        ensures
            p.dir == dir,
    {
        JsonFilePersistence { dir }
    }

    /// The file name of `plugin_id`'s state.
    pub fn file_name_for(plugin_id: &PluginId) -> (r: String)
        ensures
            r@ == state_file_name(plugin_id.0@),
    {
        proof {
            reveal_strlit("_");
        }
        let base = replace_char(plugin_id.0.as_str(), '/', "_");
        concat(base.as_str(), ".json")
    }

    /// The path of `plugin_id`'s state file: its file name joined to the directory.
    pub fn path_for(&self, plugin_id: &PluginId) -> (r: std::path::PathBuf)
        ensures
            r == joined_path(self.dir, state_file_name(plugin_id.0@)),
    {
        let name = Self::file_name_for(plugin_id);
        join_path(&self.dir, name.as_str())
    }
}

} // verus!
