//! Plugin manifest.

use vstd::prelude::*;

use crate::text::lists;

verus! {

use crate::text::strings;

/// What a plugin declares about itself.
#[derive(Debug, Clone)]
pub struct Manifest {
    /// Plugin name, also the name of its transport.
    pub name: String,
    /// Plugin version.
    pub version: String,
    /// Plugin kind.
    pub kind: String,
    /// Declared capabilities.
    pub capabilities: Vec<String>,
    /// Human readable description.
    pub description: String,
    /// Script file, relative to the plugin's directory.
    pub entry: String,
}

/// The script file where the manifest names none.
pub fn default_entry() -> (s: String)
    ensures
        s@ == "script.rhai"@,
{
    "script.rhai".to_owned()
}

impl Manifest {
    /// Whether the plugin declares `capability`.
    pub fn has_capability(&self, capability: &str) -> (yes: bool)
        ensures
            yes == strings(self.capabilities@).contains(capability@),
    {
        lists(&self.capabilities, capability)
    }
}

} // verus!
