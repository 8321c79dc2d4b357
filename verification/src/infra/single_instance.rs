//! Single instance: the PID file and what its content says.
use vstd::prelude::*;
use crate::domain::config_store::{store_dir_for, ConfigStore};
use vstd::string::StringSliceAdditionalSpecFns;
use crate::paths::join_path_bytes;
use crate::text::{parse_u32_chars, parse_u32_of, to_chars, trim_chars, trimmed};

verus! {

/// The PID file of the default configuration store.
pub fn pid_path() -> (r: Vec<u8>)
    ensures
        (exists|d: Seq<u8>| r@ == join_path_bytes(#[trigger] store_dir_for(Some(d)), "app.pid".spec_bytes())) || r@
            == join_path_bytes(store_dir_for(None), "app.pid".spec_bytes()),
{
    let store = ConfigStore::from_env();
    store.pid_path()
}

/// The process id a PID file holds: its trimmed content parsed as `u32`.
pub open spec fn pid_in(content: Seq<char>) -> Option<int> {
    parse_u32_of(trimmed(content))
}

/// The process id a PID file holds, if its trimmed content is a `u32`.
pub fn parse_pid(content: &str) -> (r: Option<u32>)
    ensures
        match r {
            Some(v) => pid_in(content@) == Some(v as int),
            None => pid_in(content@) is None,
        },
{
    let v = to_chars(content);
    let t = trim_chars(&v);
    parse_u32_chars(&t)
}

/// The other instance to probe for: the PID file's process id, unless the
/// file could not be read (`None`), holds no process id, or names this
/// process itself.
pub fn other_pid(content: Option<&str>, own_pid: u32) -> (r: Option<u32>)
    ensures
        match content {
            None => r is None,
            Some(c) => match pid_in(c@) {
                Some(p) => if p == own_pid { r is None } else { r == Some(p as u32) },
                None => r is None,
            },
        },
{
    match content {
        None => None,
        Some(c) => match parse_pid(c) {
            Some(p) => if p == own_pid { None } else { Some(p) },
            None => None,
        },
    }
}

} // verus!
