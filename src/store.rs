use vstd::prelude::*;
use crate::error::Error;
use crate::file::File;

verus! {

/// Whether the outcome `r` of an open is the one that `model` describes: a fresh
/// handle over the modelled bytes, or the modelled error.
pub open spec fn opens_as(r: Result<File, Error>, model: Result<Seq<u8>, Error>) -> bool {
    match (r, model) {
        (Ok(f), Ok(data)) => f.is_fresh_over(data),
        (Err(e), Err(m)) => e == m,
        _ => false,
    }
}

/// A source of files addressed by path.
///
/// A path is read relative to whatever root the store stands for.
pub trait Store {
    /// What opening `path` yields: the file's bytes, or the error.
    ///
    /// Every store of this crate states it; for a store that does not (one
    /// backed by the disk, whose contents change under it) nothing is known.
    closed spec fn contents(&self, path: Seq<char>) -> Result<Seq<u8>, Error> {
        arbitrary()
    }

    /// Opens `path` for reading.
    fn open(&self, path: &str) -> (r: Result<File, Error>)
        ensures
            opens_as(r, self.contents(path@)),
    ;
}

/// A store that holds nothing: every open fails with `FileNotFound`.
#[derive(Clone, Copy)]
pub struct Empty;

impl Store for Empty {
    open spec fn contents(&self, path: Seq<char>) -> Result<Seq<u8>, Error> {
        Err(Error::FileNotFound)
    }

    fn open(&self, path: &str) -> (r: Result<File, Error>) {
        Err(Error::FileNotFound)
    }
}

/// Two stores as one: `open` tries the first, and on any failure the second,
/// whose outcome is returned as it is.
pub struct Merge<A, B>(pub A, pub B);

impl<A: Store, B: Store> Store for Merge<A, B> {
    open spec fn contents(&self, path: Seq<char>) -> Result<Seq<u8>, Error> {
        match self.0.contents(path) {
            Ok(data) => Ok(data),
            Err(_) => self.1.contents(path),
        }
    }

    fn open(&self, path: &str) -> (r: Result<File, Error>) {
        match self.0.open(path) {
            Ok(f) => Ok(f),
            Err(_) => self.1.open(path),
        }
    }
}

/// A merge yields the first store's outcome where that succeeds, and the second
/// store's outcome, success or failure, where it does not.
pub proof fn lemma_merge_prefers_first<A: Store, B: Store>(a: A, b: B, path: Seq<char>)
    ensures
        Merge(a, b).contents(path) == (if a.contents(path) is Ok {
            a.contents(path)
        } else {
            b.contents(path)
        }),
{
}

/// Merging a store with `Empty` yields what the store alone yields, wherever
/// the store either opens the path or reports `FileNotFound`. (Where the store
/// fails otherwise, the merge reports `FileNotFound` in its place.)
pub proof fn lemma_merge_with_empty<A: Store>(a: A, path: Seq<char>)
    requires
        a.contents(path) is Ok || a.contents(path) == Err::<Seq<u8>, Error>(Error::FileNotFound),
    ensures
        Merge(a, Empty).contents(path) == a.contents(path),
{
}

impl<S: Store + ?Sized> Store for Box<S> {
    open spec fn contents(&self, path: Seq<char>) -> Result<Seq<u8>, Error> {
        (**self).contents(path)
    }

    fn open(&self, path: &str) -> (r: Result<File, Error>) {
        (**self).open(path)
    }
}

/// What a chain of stores in descending priority yields for `path`: the first
/// store's file that opens, or `FileNotFound` where none does.
pub open spec fn first_found<S: Store>(stores: Seq<S>, path: Seq<char>) -> Result<Seq<u8>, Error>
    decreases stores.len(),
{
    if stores.len() == 0 {
        Err(Error::FileNotFound)
    } else {
        match stores[0].contents(path) {
            Ok(data) => Ok(data),
            Err(_) => first_found(stores.drop_first(), path),
        }
    }
}

/// Any number of stores as one, in descending priority: `open` tries each in
/// turn and returns the first file that opens. Where all fail it reports
/// `FileNotFound`, as the chain `Merge(s1, Merge(s2, ... Merge(sn, Empty)))` does.
pub struct MergeAll<S> {
    stores: Vec<S>,
}

impl<S> MergeAll<S> {
    /// The stores, highest priority first.
    pub closed spec fn stores(&self) -> Seq<S> {
        self.stores@
    }

    /// Merges `stores`, highest priority first; at least one is needed.
    pub fn new(stores: Vec<S>) -> (r: MergeAll<S>)
        requires
            stores.len() >= 1,
        ensures
            r.stores() == stores@,
    {
        MergeAll { stores }
    }
}

impl<S: Store> Store for MergeAll<S> {
    open spec fn contents(&self, path: Seq<char>) -> Result<Seq<u8>, Error> {
        first_found(self.stores(), path)
    }

    fn open(&self, path: &str) -> (r: Result<File, Error>) {
        let mut i: usize = 0;
        assert(self.stores@.skip(0) =~= self.stores@);
        while i < self.stores.len()
            invariant
                i <= self.stores@.len(),
                first_found(self.stores@, path@) == first_found(self.stores@.skip(i as int), path@),
            decreases self.stores.len() - i,
        {
            let ghost tail = self.stores@.skip(i as int);
            assert(tail[0] == self.stores@[i as int]);
            match self.stores[i].open(path) {
                Ok(f) => {
                    return Ok(f);
                },
                Err(_) => {},
            }
            assert(tail.drop_first() =~= self.stores@.skip(i + 1));
            i = i + 1;
        }
        Err(Error::FileNotFound)
    }
}

} // verus!
