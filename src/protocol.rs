//! The server that owns a sandbox and hands out file operations bound to it.

use vstd::prelude::*;
use crate::tools::FileTools;
use crate::validation::{AllowedPaths, AllowedPathsError, RootProbe, root_failure};

verus! {

/// Owns the sandbox; the file operations it hands out borrow it, so the
/// sandbox outlives every one of them.
pub struct MCPServer {
    pub allowed_paths: AllowedPaths,
}

impl MCPServer {
    /// A server over the configured roots, refused as a whole when any root
    /// is unfit.
    pub fn new(allowed_dirs: Vec<RootProbe>) -> (r: Result<Self, AllowedPathsError>)
        ensures
            r is Ok <==> forall|i: int|
                0 <= i < allowed_dirs@.len() ==> root_failure(allowed_dirs@[i]) is None,
            r is Ok ==> forall|c: Seq<char>|
                r->Ok_0.allowed_paths@.contains(c) <==> exists|i: int|
                    0 <= i < allowed_dirs@.len() && crate::validation::opt_view(
                        allowed_dirs@[i].resolved,
                    ) == Some(c),
            r is Err ==> exists|i: int|
                0 <= i < allowed_dirs@.len() && root_failure(allowed_dirs@[i]) == Some(r->Err_0@)
                    && forall|j: int| 0 <= j < i ==> root_failure(allowed_dirs@[j]) is None,
    {
        match AllowedPaths::new(allowed_dirs) {
            Ok(allowed_paths) => Ok(MCPServer { allowed_paths }),
            Err(e) => Err(e),
        }
    }

    /// The file operations, confined to this server's roots.
    pub fn tools(&self) -> (r: FileTools<'_>)
        ensures
            r.roots() == self.allowed_paths@,
    {
        FileTools { allowed_paths: &self.allowed_paths }
    }
}

} // verus!
