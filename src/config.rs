//! Where the application keeps its files, and the user's interface choices.
use vstd::prelude::*;

verus! {

/// The configuration and data directories of an installed application.
#[derive(Clone, Debug)]
pub struct AppDirs {
    pub config_dir: String,
    pub data_dir: String,
}

pub open spec fn app_root(name: Seq<char>) -> Seq<char> {
    "/data/data/"@ + name
}

impl AppDirs {
    /// The directories of the application `name` on a system that keeps
    /// each application's files under `/data/data/<name>`. The name is
    /// required there; the flag only matters on other systems.
    pub fn new(name: Option<&str>, _use_xdg: bool) -> (r: Option<Self>)
        requires
            name is Some,
        ensures
            r is Some,
            r matches Some(d) ==> d.config_dir@ == app_root(name->Some_0@) + "/config"@,
            r matches Some(d) ==> d.data_dir@ == app_root(name->Some_0@) + "/data"@,
    {
        match name {
            None => None,
            Some(n) => {
                let mut config_dir = String::from_str("/data/data/");
                config_dir.append(n);
                let mut data_dir = config_dir.clone();
                config_dir.append("/config");
                data_dir.append("/data");
                Some(AppDirs { config_dir, data_dir })
            },
        }
    }
}

/// Interface choices that persist between sessions.
#[derive(Copy, Clone, Debug, PartialEq, Eq, Structural)]
pub struct UI {
    pub is_cn: bool,
}

impl Default for UI {
    /// Chinese text until the user switches.
    fn default() -> (r: Self)
        ensures
            r.is_cn,
    {
        UI { is_cn: true }
    }
}

/// File locations and persisted choices.
#[derive(Clone, Debug)]
pub struct Config {
    pub working_dir: String,
    pub config_path: String,
    pub db_path: String,
    pub cache_dir: String,
    pub ui: UI,
}

impl Default for Config {
    /// No locations yet, default interface choices.
    fn default() -> (r: Self)
        ensures
            r.working_dir@.len() == 0,
            r.config_path@.len() == 0,
            r.db_path@.len() == 0,
            r.cache_dir@.len() == 0,
            r.ui.is_cn,
    {
        Config {
            working_dir: String::new(),
            config_path: String::new(),
            db_path: String::new(),
            cache_dir: String::new(),
            ui: UI::default(),
        }
    }
}

} // verus!
