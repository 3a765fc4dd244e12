//! The client's settings, as read from `config.toml` in its data directory.
use vstd::prelude::*;
use crate::asar::path_view;
use crate::paths::{join1, joined};

verus! {

/// The settings of the client; every one may be left out.
pub struct Config {
    pub eternal_api_key: Option<String>,
    pub instances_dir: Option<Vec<String>>,
    pub cache_dir: Option<Vec<String>>,
    pub max_concurrent_downloads: Option<usize>,
}

impl Default for Config {
    /// The settings used where no file gives any: none set.
    fn default() -> (r: Config)
        ensures
            r.eternal_api_key is None,
            r.instances_dir is None,
            r.cache_dir is None,
            r.max_concurrent_downloads is None,
    {
        Config { eternal_api_key: None, instances_dir: None, cache_dir: None, max_concurrent_downloads: None }
    }
}

/// Where the settings file is: `config.toml` in the data directory.
pub fn config_path(data_dir: &Vec<String>) -> (r: Vec<String>)
    ensures
        path_view(r@) == joined(data_dir@, seq!["config.toml"@]),
{
    join1(data_dir, "config.toml")
}

/// The settings from a parsed file, or the defaults where the file could
/// not be read or parsed.
pub fn config_or_default(parsed: Option<Config>) -> (r: Config)
    ensures
        parsed is Some ==> r == parsed->0,
        parsed is None ==> r.eternal_api_key is None && r.instances_dir is None && r.cache_dir is None
            && r.max_concurrent_downloads is None,
{
    match parsed {
        Some(c) => c,
        None => Config::default(),
    }
}

} // verus!
