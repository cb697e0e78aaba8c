//! The application's data: launch arguments, playback commands and the
//! typed descriptions of generators, tracks and scripts.

use vstd::prelude::*;

pub mod types;
pub mod expr;
pub mod script;
pub mod generator;
pub mod meta;
pub mod toplevel;

verus! {

/// How the application was started.
#[derive(Debug)]
pub struct LaunchArg {
    pub file: Option<String>,
    pub project_root: Option<String>,
    pub config_dir: Option<String>,
    pub log_level: u8,
}

#[derive(Debug)]
pub struct ConversionError {}

/// A command to the audio player.
#[derive(Clone, Copy, PartialEq, Eq, Structural, Debug)]
pub enum PlayOp {
    Play,
    Pause,
    Toggle,
    Halt,
    /// Jump to a position, in samples.
    JumpTo(u64),
}

#[derive(Clone, Copy, Debug)]
pub struct GlobalSetting;

/// The name of the configuration directory inside the home directory.
pub open spec fn config_dir_name() -> Seq<char> {
    ".otopoiesis"@
}

/// `dirs::home_dir`: the user's home directory, if one is known, with
/// `Some(None)` for a path that is not valid Unicode. It depends on the
/// environment, so nothing is said of it.
#[verifier::external_body]
fn home_dir() -> (r: Option<Option<String>>) {
    match dirs::home_dir() {
        Some(p) => Some(p.to_str().map(|s| s.to_owned())),
        None => None,
    }
}

/// The relative path `comp` below the directory `base`, by the Unix rule:
/// a `/` stands between them unless `base` is empty or already ends in one.
pub open spec fn joined_path(base: Seq<char>, comp: Seq<char>) -> Seq<char> {
    if base.len() > 0 && base.last() != '/' {
        base + seq!['/'] + comp
    } else {
        base + comp
    }
}

/// Joins the relative path `comp` to the directory `base`, as
/// `joined_path` describes.
pub fn join_path(base: &str, comp: &str) -> (r: String)
    ensures
        r@ == joined_path(base@, comp@),
{
    let n = base.unicode_len();
    let mut res = base.to_owned();
    if n > 0 && base.get_char(n - 1) != '/' {
        let sep = "/";
        proof {
            reveal_strlit("/");
        }
        res.append(sep);
    }
    res.append(comp);
    res
}

/// The configuration directory for a home directory as `home_dir` reports
/// it; an unreadable home gives the empty path.
pub open spec fn config_dir_for(home: Option<Option<String>>) -> Option<Seq<char>> {
    match home {
        None => None,
        Some(None) => Some(Seq::empty()),
        Some(Some(h)) => Some(joined_path(h@, config_dir_name())),
    }
}

pub open spec fn opt_view(o: Option<String>) -> Option<Seq<char>> {
    match o {
        Some(s) => Some(s@),
        None => None,
    }
}

/// The configuration directory below `home`.
pub fn config_dir_in(home: Option<Option<String>>) -> (r: Option<String>)
    ensures
        opt_view(r) == config_dir_for(home),
{
    match home {
        None => None,
        Some(None) => Some(String::new()),
        Some(Some(h)) => {
            let name = ".otopoiesis";
            proof {
                reveal_strlit(".otopoiesis");
            }
            Some(join_path(h.as_str(), name))
        },
    }
}

impl LaunchArg {
    /// No file, no project root, log level 3, and the configuration directory
    /// in the home directory when there is one.
    pub fn default() -> (r: Self)
        ensures
            r.file is None,
            r.project_root is None,
            r.log_level == 3,
            exists|home: Option<Option<String>>| opt_view(r.config_dir) == config_dir_for(home),
    {
        let home = home_dir();
        let config_dir = config_dir_in(home);
        LaunchArg { file: None, project_root: None, config_dir, log_level: 3 }
    }

    /// The arguments given on the command line, each missing one taken from
    /// `defaults`.
    pub fn merge(val: crate::cli::Args, defaults: LaunchArg) -> (r: Self)
        ensures
            opt_view(r.file) == (if val.file is Some { opt_view(val.file) } else { opt_view(defaults.file) }),
            opt_view(r.project_root) == (if val.project_root is Some { opt_view(val.project_root) } else { opt_view(defaults.project_root) }),
            opt_view(r.config_dir) == (if val.config_dir is Some { opt_view(val.config_dir) } else { opt_view(defaults.config_dir) }),
            r.log_level == val.log_level,
    {
        let file = match val.file {
            Some(f) => Some(f),
            None => defaults.file,
        };
        let project_root = match val.project_root {
            Some(p) => Some(p),
            None => defaults.project_root,
        };
        let config_dir = match val.config_dir {
            Some(c) => Some(c),
            None => defaults.config_dir,
        };
        LaunchArg { file, project_root, config_dir, log_level: val.log_level }
    }

    /// The launch arguments for the command line `val`.
    pub fn from_args(val: crate::cli::Args) -> (r: Self)
        ensures
            opt_view(r.file) == opt_view(val.file),
            opt_view(r.project_root) == opt_view(val.project_root),
            val.config_dir is Some ==> opt_view(r.config_dir) == opt_view(val.config_dir),
            val.config_dir is None ==> exists|home: Option<Option<String>>| opt_view(r.config_dir) == config_dir_for(home),
            r.log_level == val.log_level,
    {
        let d = LaunchArg::default();
        LaunchArg::merge(val, d)
    }
}

} // verus!
