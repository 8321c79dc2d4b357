//! Where the configuration lives: a store rooted at a directory that can be
//! chosen (tests) or taken from the environment
//! (`~/.config/kylin-desktop-organizer`). Paths are kept as the raw bytes
//! of Unix paths, so a directory that is not valid text is kept as it is.
//! Reading and writing the files is done by the program around this
//! library.
use vstd::prelude::*;
use vstd::string::StringSliceAdditionalSpecFns;
use crate::paths::{config_home, join_bytes, join_path_bytes};

verus! {

/// Application identifier: directory name, process name, autostart file name.
pub const APP_ID: &'static str = "kylin-desktop-organizer";

/// The configuration store: a directory.
#[derive(Clone, Debug)]
pub struct ConfigStore {
    dir: Vec<u8>,
}

impl View for ConfigStore {
    type V = Seq<u8>;

    /// The store's directory.
    closed spec fn view(&self) -> Seq<u8> {
        self.dir@
    }
}

/// The directory of the default store for a configuration base directory
/// (`None` when none could be found: the `.kylin-desktop-organizer`
/// directory under the working directory).
pub open spec fn store_dir_for(base: Option<Seq<u8>>) -> Seq<u8> {
    match base {
        Some(d) => join_path_bytes(d, APP_ID.spec_bytes()),
        None => join_path_bytes(".".spec_bytes(), ".kylin-desktop-organizer".spec_bytes()),
    }
}

impl ConfigStore {
    /// A store rooted at `dir`.
    pub fn new(dir: Vec<u8>) -> (r: ConfigStore)
        ensures
            r@ == dir@,
    {
        ConfigStore { dir }
    }

    /// The default store under a configuration base directory.
    pub fn from_config_base(base: Option<Vec<u8>>) -> (r: ConfigStore)
        ensures
            r@ == store_dir_for(match base {
                Some(d) => Some(d@),
                None => None,
            }),
    {
        let dir = match base {
            Some(d) => join_bytes(d.as_slice(), APP_ID.as_bytes()),
            None => join_bytes(".".as_bytes(), ".kylin-desktop-organizer".as_bytes()),
        };
        ConfigStore { dir }
    }

    /// The default store: under the user's configuration directory.
    pub fn from_env() -> (r: ConfigStore)
        ensures
            (exists|d: Seq<u8>| r@ == #[trigger] store_dir_for(Some(d))) || r@ == store_dir_for(None),
    {
        let base = config_home();
        let ghost gb = base;
        let r = Self::from_config_base(base);
        proof {
            match gb {
                Some(d) => {
                    assert(r@ == store_dir_for(Some(d@)));
                },
                None => {},
            }
        }
        r
    }

    /// The store's directory.
    pub fn config_dir(&self) -> (r: &[u8])
        ensures
            r@ == self@,
    {
        self.dir.as_slice()
    }

    /// The configuration file: `config.json` in the store's directory.
    pub fn config_path(&self) -> (r: Vec<u8>)
        ensures
            r@ == join_path_bytes(self@, "config.json".spec_bytes()),
    {
        join_bytes(self.dir.as_slice(), "config.json".as_bytes())
    }

    /// The single-instance PID file: `app.pid` in the store's directory.
    pub fn pid_path(&self) -> (r: Vec<u8>)
        ensures
            r@ == join_path_bytes(self@, "app.pid".spec_bytes()),
    {
        join_bytes(self.dir.as_slice(), "app.pid".as_bytes())
    }
}

} // verus!
