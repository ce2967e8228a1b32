use vstd::prelude::*;

verus! {

/// Why a store could not open a path.
#[derive(Debug)]
pub enum Error {
    /// No store could resolve the path.
    FileNotFound,
    /// A backing store failed for another reason, with its description.
    Io(String),
}

impl Error {
    /// Whether this is the not-found error.
    pub fn is_not_found(&self) -> (r: bool)
        ensures
            r == (*self is FileNotFound),
    {
        match self {
            Error::FileNotFound => true,
            Error::Io(_) => false,
        }
    }
}

} // verus!
