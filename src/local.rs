use vstd::prelude::*;
use crate::path::{join, joined};

verus! {

/// A store over a directory of the local filesystem.
///
/// It holds the directory; a path opened through it is read relative to that
/// directory, as [`Local::path_of`] gives it.
pub struct Local {
    root: String,
}

impl Local {
    /// The directory the store reads from.
    pub closed spec fn root(&self) -> Seq<char> {
        self.root@
    }

    /// A store over the directory `root`.
    pub fn new(root: &str) -> (r: Local)
        ensures
            r.root() == root@,
    {
        Local { root: root.to_owned() }
    }

    /// The directory the store reads from.
    pub fn root_dir(&self) -> (r: &str)
        ensures
            r@ == self.root(),
    {
        self.root.as_str()
    }

    /// Where on disk the file at `path` of this store lies.
    pub fn path_of(&self, path: &str) -> (r: String)
        ensures
            r@ == joined(self.root(), path@),
    {
        join(self.root.as_str(), path)
    }
}

} // verus!
