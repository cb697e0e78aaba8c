//! Access to files: the native file system, and the web build where there is
//! none.

use vstd::prelude::*;

verus! {

/// Opens files of the local file system.
#[derive(Clone, Copy, Debug)]
pub struct NativeFileManager {}

/// The stream of a file on the web, which cannot be opened yet.
#[derive(Clone, Copy, Debug)]
pub struct WebMediaSource {}

/// File access on the web.
#[derive(Clone, Copy, Debug)]
pub struct WebFileManager {}

/// The error every file operation on the web gives.
#[derive(Clone, Copy, Debug)]
pub struct WebFileError {}

impl WebFileError {
    pub fn to_string(&self) -> (r: String)
        ensures
            r@ == "file operation is currenrly not compatible with wasm"@,
    {
        "file operation is currenrly not compatible with wasm".to_owned()
    }
}

impl WebFileManager {
    /// Files cannot be opened on the web.
    pub fn get_file(&self, path: &str) -> (r: Result<WebMediaSource, WebFileError>)
        ensures
            r is Err,
    {
        Err(WebFileError {})
    }
}

} // verus!
