//! `~/.bettercursor/config.json`: the user's preferences.
//!
//! Reading and writing the file is the caller's part; a missing or
//! unreadable file means the defaults.
use vstd::prelude::*;

use crate::paths;
use crate::text;

verus! {

/// The user's preferences.
#[derive(Debug)]
pub struct Preferences {
    /// Remote path prefixes and the local prefixes they map to, each
    /// remote prefix once.
    pub path_mappings: Vec<(String, String)>,
}

impl Preferences {
    /// The defaults: no path mappings.
    pub fn new() -> (r: Preferences)
        ensures
            r.path_mappings@.len() == 0,
    {
        Preferences { path_mappings: Vec::new() }
    }
}

/// `config_path_display`: where the preferences live, for display.
pub fn config_path_display(home: Option<&str>) -> (r: String)
    ensures
        r@ == paths::join(paths::state_dir_spec(paths::opt_view(home)), "config.json"@),
{
    paths::config_file(home)
}

} // verus!
