//! What a running proxy publishes about itself, and where that is kept.
use vstd::prelude::*;
use crate::cli::Port;
use crate::text::{chars_of, string_of};

verus! {

/// What a running proxy publishes for `prox status` and `prox stop`.
#[derive(Debug)]
pub struct State {
    pub pid: u32,
    pub control_port: u16,
    pub token: String,
    pub host: String,
    pub ports: Vec<Port>,
}

/// The environment variable a directory is found from.
#[derive(Debug, Clone, Copy, PartialEq, Eq, Structural)]
pub enum DirectoryBase {
    /// The explicit override (`PROX_STATE_DIR` or `PROX_CONFIG_DIR`).
    Explicit,
    LocalAppData,
    /// `XDG_STATE_HOME` or `XDG_CONFIG_HOME`.
    Xdg,
    Home,
}

/// A directory: the value of `base`, joined with `suffix` unless that is empty.
#[derive(Debug)]
pub struct Location {
    pub base: DirectoryBase,
    pub suffix: String,
}

pub open spec fn location_is(r: Result<Location, String>, base: DirectoryBase, suffix: Seq<char>) -> bool {
    r matches Ok(l) && l.base == base && l.suffix@ == suffix
}

pub open spec fn error_is(r: Result<Location, String>, message: Seq<char>) -> bool {
    r matches Err(e) && e@ == message
}

/// Where state and logs go: `PROX_STATE_DIR`, else `%LOCALAPPDATA%\prox` on
/// Windows, else `$XDG_STATE_HOME/prox`, else `$HOME/.local/state/prox`. An empty
/// `XDG_STATE_HOME` counts as unset; each flag says whether that variable is set
/// (`XDG_STATE_HOME`: set and not empty).
pub fn state_directory(explicit: bool, windows: bool, local_app_data: bool, xdg: bool, home: bool) -> (r:
    Result<Location, String>)
    ensures
        explicit ==> location_is(r, DirectoryBase::Explicit, ""@),
        !explicit && windows && local_app_data ==> location_is(
            r,
            DirectoryBase::LocalAppData,
            "prox"@,
        ),
        !explicit && windows && !local_app_data ==> error_is(r, "LOCALAPPDATA is not set"@),
        !explicit && !windows && xdg ==> location_is(r, DirectoryBase::Xdg, "prox"@),
        !explicit && !windows && !xdg && home ==> location_is(
            r,
            DirectoryBase::Home,
            ".local/state/prox"@,
        ),
        !explicit && !windows && !xdg && !home ==> error_is(r, "HOME is not set"@),
{
    if explicit {
        Ok(Location { base: DirectoryBase::Explicit, suffix: string_of("") })
    } else if windows {
        if local_app_data {
            Ok(Location { base: DirectoryBase::LocalAppData, suffix: string_of("prox") })
        } else {
            Err(string_of("LOCALAPPDATA is not set"))
        }
    } else if xdg {
        Ok(Location { base: DirectoryBase::Xdg, suffix: string_of("prox") })
    } else if home {
        Ok(Location { base: DirectoryBase::Home, suffix: string_of(".local/state/prox") })
    } else {
        Err(string_of("HOME is not set"))
    }
}

/// Where environments are saved: `PROX_CONFIG_DIR`, else `%LOCALAPPDATA%\prox` on
/// Windows, else `$XDG_CONFIG_HOME/prox`, else `$HOME/.config/prox`. An empty
/// `PROX_CONFIG_DIR` or `XDG_CONFIG_HOME` counts as unset; each flag says whether
/// that variable is set and not empty (`HOME` and `LOCALAPPDATA`: set).
pub fn config_directory(explicit: bool, windows: bool, local_app_data: bool, xdg: bool, home: bool) -> (r:
    Result<Location, String>)
    ensures
        explicit ==> location_is(r, DirectoryBase::Explicit, ""@),
        !explicit && windows && local_app_data ==> location_is(
            r,
            DirectoryBase::LocalAppData,
            "prox"@,
        ),
        !explicit && windows && !local_app_data ==> error_is(r, "LOCALAPPDATA is not set"@),
        !explicit && !windows && xdg ==> location_is(r, DirectoryBase::Xdg, "prox"@),
        !explicit && !windows && !xdg && home ==> location_is(
            r,
            DirectoryBase::Home,
            ".config/prox"@,
        ),
        !explicit && !windows && !xdg && !home ==> error_is(r, "HOME is not set"@),
{
    if explicit {
        Ok(Location { base: DirectoryBase::Explicit, suffix: string_of("") })
    } else if windows {
        if local_app_data {
            Ok(Location { base: DirectoryBase::LocalAppData, suffix: string_of("prox") })
        } else {
            Err(string_of("LOCALAPPDATA is not set"))
        }
    } else if xdg {
        Ok(Location { base: DirectoryBase::Xdg, suffix: string_of("prox") })
    } else if home {
        Ok(Location { base: DirectoryBase::Home, suffix: string_of(".config/prox") })
    } else {
        Err(string_of("HOME is not set"))
    }
}

} // verus!

verus! {

pub open spec fn relative_config_error() -> Seq<char> {
    "configuration directory must be an absolute path"@
}

/// Refuses a configuration directory that is not absolute, by the path rules of
/// Windows (`windows`) or of Unix.
pub fn check_config_directory(directory: &str, windows: bool) -> (r: Result<(), String>)
    ensures
        r is Ok == if windows {
            crate::install::windows::windows_absolute(directory@)
        } else {
            crate::install::unix::is_absolute(directory@)
        },
        r matches Err(e) ==> e@ == relative_config_error(),
{
    let absolute = if windows {
        crate::install::windows::is_absolute(directory)
    } else {
        let v = chars_of(directory);
        v.len() > 0 && v[0] == '/'
    };
    if absolute {
        Ok(())
    } else {
        Err(string_of("configuration directory must be an absolute path"))
    }
}

} // verus!
