//! The command line.

use vstd::prelude::*;

verus! {

/// otopoiesis - constructive sound design environment
#[derive(Debug)]
pub struct Args {
    /// Path of project file to open
    pub file: Option<String>,
    /// Path of project directory. Ignored when the file path is absolute
    pub project_root: Option<String>,
    /// Global Config Directory (default: ${HOME}/.otopoieis)
    pub config_dir: Option<String>,
    /// (currently not implemented) log infomation level (1:trace 2:info 3:warn 4:error 5:none)
    pub log_level: u8,
}

} // verus!
