use vstd::prelude::*;
use crate::error::Error;
use crate::file::File;
use crate::path::{mount_rest, strip_mount};
use crate::store::Store;

verus! {

/// A store bound at a mount point.
struct Mount<S> {
    path: String,
    store: S,
}

/// What the mount bindings `b`, oldest first, yield for `path`: the newest
/// binding whose mount point is a path prefix of `path` is asked for the rest
/// of `path`, and its outcome stands; where none matches, `FileNotFound`.
pub open spec fn resolve<S: Store>(b: Seq<(Seq<char>, S)>, path: Seq<char>) -> Result<Seq<u8>, Error>
    decreases b.len(),
{
    if b.len() == 0 {
        Err(Error::FileNotFound)
    } else {
        match mount_rest(path, b.last().0) {
            Some(rest) => b.last().1.contents(rest),
            None => resolve(b.drop_last(), path),
        }
    }
}

/// The index of the newest binding of `b` mounted exactly at `path`.
pub open spec fn last_at<S>(b: Seq<(Seq<char>, S)>, path: Seq<char>) -> Option<int>
    decreases b.len(),
{
    if b.len() == 0 {
        None
    } else if b.last().0 == path {
        Some(b.len() - 1)
    } else {
        last_at(b.drop_last(), path)
    }
}

proof fn lemma_resolve_newest_match<S: Store>(b: Seq<(Seq<char>, S)>, path: Seq<char>, i: int)
    requires
        0 <= i < b.len(),
        mount_rest(path, b[i].0) is Some,
        forall|j: int| i < j < b.len() ==> mount_rest(path, #[trigger] b[j].0) is None,
    ensures
        resolve(b, path) == b[i].1.contents(mount_rest(path, b[i].0)->0),
    decreases b.len(),
{
    if i < b.len() - 1 {
        assert(mount_rest(path, b[b.len() - 1].0) is None);
        lemma_resolve_newest_match(b.drop_last(), path, i);
    }
}

/// Where the binding at index `i` is the newest whose mount point is a path
/// prefix of `path`, opening `path` on the table yields what that binding's
/// store yields for the rest of `path`, success or failure: older bindings are
/// never asked.
pub proof fn lemma_newest_match_decides<S: Store>(fs: MiniFs<S>, path: Seq<char>, i: int)
    requires
        0 <= i < fs.bindings().len(),
        mount_rest(path, fs.bindings()[i].0) is Some,
        forall|j: int|
            i < j < fs.bindings().len() ==> mount_rest(path, #[trigger] fs.bindings()[j].0) is None,
    ensures
        fs.contents(path) == fs.bindings()[i].1.contents(mount_rest(path, fs.bindings()[i].0)->0),
{
    lemma_resolve_newest_match(fs.bindings(), path, i);
}

proof fn lemma_last_at_remove<S>(b: Seq<(Seq<char>, S)>, path: Seq<char>, i: int)
    requires
        last_at(b, path) == Some(i),
    ensures
        0 <= i < b.len(),
        b[i].0 == path,
        last_at(b.remove(i), path) == last_at(b.take(i), path),
    decreases b.len(),
{
    if b.last().0 == path {
        assert(b.remove(i) =~= b.take(i));
    } else {
        lemma_last_at_remove(b.drop_last(), path, i);
        assert(b.remove(i).drop_last() =~= b.drop_last().remove(i));
        assert(b.drop_last().take(i) =~= b.take(i));
    }
}

proof fn lemma_others_remove<S>(b: Seq<(Seq<char>, S)>, path: Seq<char>, i: int)
    requires
        0 <= i < b.len(),
        b[i].0 == path,
    ensures
        b.remove(i).filter(|m: (Seq<char>, S)| m.0 != path) == b.filter(
            |m: (Seq<char>, S)| m.0 != path,
        ),
    decreases b.len(),
{
    reveal(Seq::filter);
    if i == b.len() - 1 {
        assert(b.remove(i) =~= b.drop_last());
    } else {
        lemma_others_remove(b.drop_last(), path, i);
        assert(b.remove(i).drop_last() =~= b.drop_last().remove(i));
    }
}

/// Unmounting `path` twice in a row: the first call takes the newest binding at
/// `path`; the second then finds the next older binding at `path`, or none
/// where none is left; and the bindings at other mount points stay as they
/// were, in the same order.
pub proof fn lemma_umount_twice<S>(fs: MiniFs<S>, path: Seq<char>)
    requires
        last_at(fs.bindings(), path) is Some,
    ensures
        ({
            let b = fs.bindings();
            let i = last_at(b, path)->0;
            &&& 0 <= i < b.len()
            &&& b[i].0 == path
            &&& forall|j: int| i < j < b.len() ==> #[trigger] b[j].0 != path
            &&& last_at(b.remove(i), path) == last_at(b.take(i), path)
            &&& b.remove(i).filter(|m: (Seq<char>, S)| m.0 != path) == b.filter(
                |m: (Seq<char>, S)| m.0 != path,
            )
        }),
{
    let b = fs.bindings();
    let i = last_at(b, path)->0;
    lemma_last_at_remove(b, path, i);
    lemma_last_at_newest(b, path);
    lemma_others_remove(b, path, i);
}

proof fn lemma_last_at_newest<S>(b: Seq<(Seq<char>, S)>, path: Seq<char>)
    requires
        last_at(b, path) is Some,
    ensures
        0 <= last_at(b, path)->0 < b.len(),
        forall|j: int| last_at(b, path)->0 < j < b.len() ==> #[trigger] b[j].0 != path,
    decreases b.len(),
{
    if b.last().0 != path {
        lemma_last_at_newest(b.drop_last(), path);
        assert forall|j: int| last_at(b, path)->0 < j < b.len() implies #[trigger] b[j].0 != path by {
            if j < b.len() - 1 {
                assert(b[j] == b.drop_last()[j]);
            }
        }
    }
}

/// Filesystem-like storage: stores bound at mount points.
///
/// Every binding holds a store of type `S`; to bind stores of several kinds,
/// take `Box<dyn Store>` for `S`.
pub struct MiniFs<S> {
    inner: Vec<Mount<S>>,
}

impl<S> MiniFs<S> {
    /// The bindings as (mount point, store), oldest first.
    pub closed spec fn bindings(&self) -> Seq<(Seq<char>, S)> {
        self.inner@.map_values(|m: Mount<S>| (m.path@, m.store))
    }

    /// A table with no bindings.
    pub fn new() -> (r: MiniFs<S>)
        ensures
            r.bindings() == Seq::<(Seq<char>, S)>::empty(),
    {
        let r = MiniFs { inner: Vec::new() };
        assert(r.bindings() =~= Seq::<(Seq<char>, S)>::empty());
        r
    }

    /// Binds `store` at `path`, after every earlier binding.
    pub fn mount(self, path: &str, store: S) -> (r: MiniFs<S>)
        ensures
            r.bindings() == self.bindings().push((path@, store)),
    {
        let mut inner = self.inner;
        inner.push(Mount { path: path.to_owned(), store });
        let r = MiniFs { inner };
        assert(r.bindings() =~= self.bindings().push((path@, store)));
        r
    }

    /// Removes the newest binding mounted exactly at `path` and hands its store
    /// back; the other bindings keep their order. Where no binding is mounted
    /// there, nothing changes and `None` comes back.
    pub fn umount(&mut self, path: &str) -> (r: Option<S>)
        ensures
            match last_at(old(self).bindings(), path@) {
                Some(i) => {
                    &&& r == Some(old(self).bindings()[i].1)
                    &&& final(self).bindings() == old(self).bindings().remove(i)
                },
                None => {
                    &&& r is None
                    &&& final(self).bindings() == old(self).bindings()
                },
            },
    {
        let key = path.to_owned();
        let mut i: usize = self.inner.len();
        assert(self.bindings().take(i as int) =~= self.bindings());
        while i > 0
            invariant
                i <= self.inner@.len(),
                key@ == path@,
                self.inner@ == old(self).inner@,
                last_at(self.bindings(), path@) == last_at(self.bindings().take(i as int), path@),
            decreases i,
        {
            assert(self.bindings().take(i as int).drop_last() =~= self.bindings().take(i - 1));
            if self.inner[i - 1].path == key {
                let ghost before = self.bindings();
                let m = self.inner.remove(i - 1);
                assert(self.bindings() =~= before.remove(i - 1));
                return Some(m.store);
            }
            i = i - 1;
        }
        assert(self.bindings().take(0) =~= Seq::<(Seq<char>, S)>::empty());
        None
    }
}

impl<S: Store> Store for MiniFs<S> {
    open spec fn contents(&self, path: Seq<char>) -> Result<Seq<u8>, Error> {
        resolve(self.bindings(), path)
    }

    fn open(&self, path: &str) -> (r: Result<File, Error>) {
        let mut i: usize = self.inner.len();
        assert(self.bindings().take(i as int) =~= self.bindings());
        while i > 0
            invariant
                i <= self.inner@.len(),
                resolve(self.bindings(), path@) == resolve(self.bindings().take(i as int), path@),
            decreases i,
        {
            assert(self.bindings().take(i as int).drop_last() =~= self.bindings().take(i - 1));
            let m = &self.inner[i - 1];
            match strip_mount(path, m.path.as_str()) {
                Some(rest) => {
                    return m.store.open(rest);
                },
                None => {},
            }
            i = i - 1;
        }
        Err(Error::FileNotFound)
    }
}

} // verus!
