//! User-level defaults (`~/.config/nodewipe/config.toml` or the platform
//! equivalent) and where the per-user files of nodewipe live. Every setting
//! is optional; command-line flags take priority over the file.
use vstd::prelude::*;
use crate::deleter::DeleteMode;
use crate::paths::{join, join_of};
use crate::text::{chars_of, chars_eq};

verus! {

broadcast use vstd::string::group_string_axioms;

/// User-level defaults. Every field is optional; anything unset falls back
/// to the built-in defaults.
#[derive(Debug)]
pub struct Config {
    pub default_delete_mode: Option<String>,
    pub default_exclude_types: Option<Vec<String>>,
}

impl Default for Config {
    /// Nothing set.
    fn default() -> (r: Self)
        ensures
            r.default_delete_mode is None,
            r.default_exclude_types is None,
    {
        Config { default_delete_mode: None, default_exclude_types: None }
    }
}

/// `dirs::config_dir`: the platform's per-user configuration directory
/// (`$XDG_CONFIG_HOME` or `$HOME/.config` on Linux), when it can be
/// determined, as text. It depends on the environment, so nothing is stated
/// of it. Paths are held as text in this library: a directory name that is
/// not valid UTF-8 comes back with replacement characters.
#[verifier::external_body]
fn config_dir() -> Option<String> {
    match dirs::config_dir() {
        Some(p) => Some(p.to_string_lossy().into_owned()),
        None => None,
    }
}

/// `dirs::home_dir`: the user's home directory, when it can be determined,
/// as text. It depends on the environment, so nothing is stated of it. A
/// name that is not valid UTF-8 comes back with replacement characters.
#[verifier::external_body]
fn home_dir() -> Option<String> {
    match dirs::home_dir() {
        Some(p) => Some(p.to_string_lossy().into_owned()),
        None => None,
    }
}

/// The config file inside the configuration directory `dir`.
pub open spec fn config_file_in(dir: Seq<char>) -> Seq<char> {
    join_of(join_of(dir, "nodewipe"@), "config.toml"@)
}

/// `dir/nodewipe/config.toml`.
pub fn config_path_in(dir: &str) -> (r: String)
    ensures
        r@ == config_file_in(dir@),
{
    let d = join(dir, "nodewipe");
    join(d.as_str(), "config.toml")
}

/// The config file's location: `nodewipe/config.toml` in the platform's
/// configuration directory, or `None` when that directory is unknown.
pub fn config_path() -> (r: Option<String>)
    ensures
        r matches Some(p) ==> exists|d: Seq<char>| p@ == config_file_in(d),
{
    match config_dir() {
        Some(d) => Some(config_path_in(d.as_str())),
        None => None,
    }
}

/// The ignore files that apply to a scan of `root`, in order: the global
/// one in the home directory (when known), then the one in the scan root.
pub open spec fn ignore_files_of(home: Option<Seq<char>>, root: Seq<char>) -> Seq<Seq<char>> {
    match home {
        Some(h) => seq![join_of(h, ".nodewipeignore"@), join_of(root, ".nodewipeignore"@)],
        None => seq![join_of(root, ".nodewipeignore"@)],
    }
}

/// The ignore files for a scan of `root`, given the home directory.
pub fn ignore_files_for(home: Option<String>, root: &str) -> (r: Vec<String>)
    ensures
        crate::paths::string_views(r@) == ignore_files_of(crate::workspace::opt_view(home), root@),
{
    let mut r: Vec<String> = Vec::new();
    match &home {
        Some(h) => {
            r.push(join(h.as_str(), ".nodewipeignore"));
        },
        None => {},
    }
    r.push(join(root, ".nodewipeignore"));
    assert(crate::paths::string_views(r@) =~= ignore_files_of(
        crate::workspace::opt_view(home),
        root@,
    ));
    r
}

/// The ignore files for a scan of `root`: `.nodewipeignore` in the home
/// directory when it is known, then `.nodewipeignore` in the root. Their
/// patterns are simply concatenated; both apply.
pub fn ignore_file_locations(root: &str) -> (r: Vec<String>)
    ensures
        exists|home: Option<Seq<char>>| crate::paths::string_views(r@) == ignore_files_of(
            home,
            root@,
        ),
{
    let home = home_dir();
    let ghost h = crate::workspace::opt_view(home);
    let r = ignore_files_for(home, root);
    assert(crate::paths::string_views(r@) == ignore_files_of(h, root@));
    r
}

/// The delete mode a name stands for, in the config file and the GUI.
pub open spec fn delete_mode_named(name: Seq<char>) -> Option<DeleteMode> {
    if name == "trash"@ {
        Some(DeleteMode::Trash)
    } else if name == "archive"@ {
        Some(DeleteMode::Archive)
    } else if name == "permanent"@ {
        Some(DeleteMode::Permanent)
    } else {
        None
    }
}

/// The delete mode named `name` (`trash`, `archive`, `permanent`), if any.
pub fn parse_delete_mode(name: &str) -> (r: Option<DeleteMode>)
    ensures
        r == delete_mode_named(name@),
{
    let v = chars_of(name);
    if chars_eq(&v, &chars_of("trash")) {
        Some(DeleteMode::Trash)
    } else if chars_eq(&v, &chars_of("archive")) {
        Some(DeleteMode::Archive)
    } else if chars_eq(&v, &chars_of("permanent")) {
        Some(DeleteMode::Permanent)
    } else {
        None
    }
}

/// The delete mode that applies: the one given on the command line, else
/// the config file's `default_delete_mode`, else `Trash`; an unknown name in
/// the config file counts as `Trash`.
pub open spec fn resolved_mode(cli_mode: Option<DeleteMode>, config_mode: Option<Seq<char>>) -> DeleteMode {
    match cli_mode {
        Some(m) => m,
        None => match config_mode {
            Some(n) => match delete_mode_named(n) {
                Some(m) => m,
                None => DeleteMode::Trash,
            },
            None => DeleteMode::Trash,
        },
    }
}

/// Resolves the delete mode (see [`resolved_mode`]). The second result is
/// the config file's value when it was consulted and names no mode, for the
/// caller to warn about.
pub fn resolve_delete_mode(cli_mode: Option<DeleteMode>, config: &Config) -> (r: (
    DeleteMode,
    Option<String>,
))
    ensures
        r.0 == resolved_mode(cli_mode, crate::workspace::opt_view(config.default_delete_mode)),
        match r.1 {
            Some(n) => cli_mode is None && config.default_delete_mode == Some(n) && delete_mode_named(
                n@,
            ) is None,
            None => cli_mode is Some || match config.default_delete_mode {
                Some(s) => delete_mode_named(s@) is Some,
                None => true,
            },
        },
{
    match cli_mode {
        Some(m) => (m, None),
        None => match &config.default_delete_mode {
            Some(s) => match parse_delete_mode(s.as_str()) {
                Some(m) => (m, None),
                None => (DeleteMode::Trash, Some(s.clone())),
            },
            None => (DeleteMode::Trash, None),
        },
    }
}

} // verus!
