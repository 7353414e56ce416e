//! The launcher home — the single place where settings, accounts, servers,
//! profiles, skins and logs live — and the game directory in use.
//!
//! The home is `RUSTLAUNCHER_HOME` when set (portable distribution), else
//! the `RustLauncher` folder in the OS data directory.
use vstd::prelude::*;

use crate::text::{join_path, path_join, string_of, to_chars, trim, trim_str};

verus! {

fn joined(home: &str, name: &str) -> (r: String)
    ensures
        r@ == path_join(home@, name@),
{
    join_path(home, name)
}

pub fn skins_dir(home: &str) -> (r: String)
    ensures
        r@ == path_join(home@, "skins"@),
{
    joined(home, "skins")
}

pub fn profiles_dir(home: &str) -> (r: String)
    ensures
        r@ == path_join(home@, "profiles"@),
{
    joined(home, "profiles")
}

pub fn logs_dir(home: &str) -> (r: String)
    ensures
        r@ == path_join(home@, "logs"@),
{
    joined(home, "logs")
}

pub fn config_file(home: &str) -> (r: String)
    ensures
        r@ == path_join(home@, "config.json"@),
{
    joined(home, "config.json")
}

pub fn accounts_file(home: &str) -> (r: String)
    ensures
        r@ == path_join(home@, "accounts.json"@),
{
    joined(home, "accounts.json")
}

pub fn servers_file(home: &str) -> (r: String)
    ensures
        r@ == path_join(home@, "servers.json"@),
{
    joined(home, "servers.json")
}

/// Why the launcher home cannot be determined.
#[derive(Debug, Clone, Copy, PartialEq, Eq, Structural)]
pub enum HomeError {
    /// No `RUSTLAUNCHER_HOME` and no OS data directory.
    NoDataDir,
}

/// The launcher home, given the `RUSTLAUNCHER_HOME` variable and the OS
/// data directory: the variable when set and not empty, else
/// `<data dir>/RustLauncher`.
pub fn launcher_home(env_home: Option<&str>, data_dir: Option<&str>) -> (r: Result<String, HomeError>)
    ensures
        match env_home {
            Some(h) if h@.len() > 0 => r matches Ok(p) && p@ == h@,
            _ => match data_dir {
                Some(d) => r matches Ok(p) && p@ == path_join(d@, "RustLauncher"@),
                None => r == Err::<String, HomeError>(HomeError::NoDataDir),
            },
        },
{
    match env_home {
        Some(h) => {
            if !h.is_empty() {
                return Ok(string_of(to_chars(h).as_slice()));
            }
        },
        None => {},
    }
    match data_dir {
        Some(d) => Ok(joined(d, "RustLauncher")),
        None => Err(HomeError::NoDataDir),
    }
}

/// The game directory in use: the configured one (trimmed) when set, else
/// the default game directory, else the current directory.
pub fn resolve_game_dir(configured: &str, default_dir: Option<&str>) -> (r: String)
    ensures
        r@ == if trim(configured@).len() > 0 {
            trim(configured@)
        } else {
            match default_dir {
                Some(d) => d@,
                None => "."@,
            }
        },
{
    let t = trim_str(configured);
    if t.len() > 0 {
        string_of(t.as_slice())
    } else {
        match default_dir {
            Some(d) => string_of(to_chars(d).as_slice()),
            None => string_of(to_chars(".").as_slice()),
        }
    }
}

} // verus!
