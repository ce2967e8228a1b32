use vstd::prelude::*;
use vstd::slice::slice_to_vec;
use crate::error::Error;
use crate::file::File;
use crate::store::Store;

verus! {

/// The bytes of the newest entry of `entries` under `path`, if any.
pub closed spec fn lookup(entries: Seq<(String, Vec<u8>)>, path: Seq<char>) -> Option<Seq<u8>>
    decreases entries.len(),
{
    if entries.len() == 0 {
        None
    } else if entries.last().0@ == path {
        Some(entries.last().1@)
    } else {
        lookup(entries.drop_last(), path)
    }
}

proof fn lemma_lookup_remove(entries: Seq<(String, Vec<u8>)>, j: int, path: Seq<char>)
    requires
        0 <= j < entries.len(),
        entries[j].0@ != path,
    ensures
        lookup(entries.remove(j), path) == lookup(entries, path),
    decreases entries.len(),
{
    if j == entries.len() - 1 {
        assert(entries.remove(j) =~= entries.drop_last());
    } else {
        assert(entries.remove(j).drop_last() =~= entries.drop_last().remove(j));
        assert(entries.remove(j).last() == entries.last());
        lemma_lookup_remove(entries.drop_last(), j, path);
    }
}

/// An in-memory store: a map from path to file contents.
pub struct Ram {
    inner: Vec<(String, Vec<u8>)>,
}

impl View for Ram {
    type V = Map<Seq<char>, Seq<u8>>;

    closed spec fn view(&self) -> Map<Seq<char>, Seq<u8>> {
        Map::new(|p: Seq<char>| lookup(self.inner@, p) is Some, |p: Seq<char>| lookup(self.inner@, p)->0)
    }
}

impl Ram {
    /// No two entries are stored under one path.
    #[verifier::type_invariant]
    closed spec fn keys_unique(&self) -> bool {
        forall|i: int, j: int|
            0 <= i < j < self.inner@.len() ==> #[trigger] self.inner@[i].0@ != #[trigger] self.inner@[j].0@
    }

    /// An empty store.
    pub fn new() -> (r: Ram)
        ensures
            r@ == Map::<Seq<char>, Seq<u8>>::empty(),
    {
        let r = Ram { inner: Vec::new() };
        assert(r@ =~= Map::<Seq<char>, Seq<u8>>::empty());
        r
    }

    /// Removes every file.
    pub fn clear(&mut self)
        ensures
            final(self)@ == Map::<Seq<char>, Seq<u8>>::empty(),
    {
        *self = Ram::new();
    }

    /// Stores `file` under `path`, replacing what was there.
    pub fn touch(&mut self, path: &str, file: &[u8])
        ensures
            final(self)@ == old(self)@.insert(path@, file@),
    {
        proof {
            use_type_invariant(&*self);
        }
        let mut taken = Ram::new();
        core::mem::swap(self, &mut taken);
        let mut inner = taken.inner;
        let key = path.to_owned();
        let i = position_of(&inner, &key);
        let ghost before = inner@;
        if i < inner.len() {
            inner.remove(i);
            assert forall|p: Seq<char>| p != path@ implies lookup(inner@, p) == lookup(before, p) by {
                lemma_lookup_remove(before, i as int, p);
            }
            assert forall|k: int| 0 <= k < inner@.len() implies #[trigger] inner@[k].0@ != path@ by {
                if k >= i {
                    assert(before[k + 1] == inner@[k]);
                    assert(before[i as int].0@ != before[k + 1].0@);
                }
            }
        }
        let ghost removed = inner@;
        inner.push((key, slice_to_vec(file)));
        assert(inner@.drop_last() == removed);
        *self = Ram { inner };
        assert(self@ =~= old(self)@.insert(path@, file@));
    }
}

proof fn lemma_lookup_same_views(a: Seq<(String, Vec<u8>)>, b: Seq<(String, Vec<u8>)>, path: Seq<char>)
    requires
        a.len() == b.len(),
        forall|k: int| 0 <= k < a.len() ==> #[trigger] a[k].0@ == b[k].0@ && a[k].1@ == b[k].1@,
    ensures
        lookup(a, path) == lookup(b, path),
    decreases a.len(),
{
    if a.len() > 0 {
        assert(a.last().0@ == b.last().0@);
        lemma_lookup_same_views(a.drop_last(), b.drop_last(), path);
    }
}

impl Clone for Ram {
    /// A store with the same files.
    fn clone(&self) -> (r: Ram)
        ensures
            r@ == self@,
    {
        proof {
            use_type_invariant(self);
        }
        let mut inner: Vec<(String, Vec<u8>)> = Vec::new();
        let mut i: usize = 0;
        while i < self.inner.len()
            invariant
                i <= self.inner@.len(),
                inner@.len() == i,
                forall|k: int|
                    0 <= k < i ==> #[trigger] inner@[k].0@ == self.inner@[k].0@ && inner@[k].1@
                        == self.inner@[k].1@,
            decreases self.inner.len() - i,
        {
            let entry = &self.inner[i];
            inner.push((entry.0.clone(), slice_to_vec(entry.1.as_slice())));
            i = i + 1;
        }
        let r = Ram { inner };
        assert forall|p: Seq<char>| lookup(r.inner@, p) == lookup(self.inner@, p) by {
            lemma_lookup_same_views(r.inner@, self.inner@, p);
        }
        assert(r@ =~= self@);
        r
    }
}

/// The index of the first entry under `key`, or the number of entries.
fn position_of(entries: &Vec<(String, Vec<u8>)>, key: &String) -> (r: usize)
    ensures
        r <= entries@.len(),
        r < entries@.len() ==> entries@[r as int].0@ == key@,
        forall|k: int| 0 <= k < r ==> entries@[k].0@ != key@,
{
    let mut i: usize = 0;
    while i < entries.len()
        invariant
            i <= entries@.len(),
            forall|k: int| 0 <= k < i ==> entries@[k].0@ != key@,
        decreases entries.len() - i,
    {
        if entries[i].0 == *key {
            return i;
        }
        i = i + 1;
    }
    i
}

/// Opening a path right after `touch` stored `bytes` there yields exactly
/// `bytes`.
pub proof fn lemma_touch_then_open(before: Ram, after: Ram, path: Seq<char>, bytes: Seq<u8>)
    requires
        after@ == before@.insert(path, bytes),
    ensures
        after.contents(path) == Ok::<Seq<u8>, Error>(bytes),
{
}

/// After `clear`, opening any path fails with `FileNotFound`.
pub proof fn lemma_clear_then_open(after: Ram, path: Seq<char>)
    requires
        after@ == Map::<Seq<char>, Seq<u8>>::empty(),
    ensures
        after.contents(path) == Err::<Seq<u8>, Error>(Error::FileNotFound),
{
}

impl Store for Ram {
    open spec fn contents(&self, path: Seq<char>) -> Result<Seq<u8>, Error> {
        if self@.contains_key(path) {
            Ok(self@[path])
        } else {
            Err(Error::FileNotFound)
        }
    }

    fn open(&self, path: &str) -> (r: Result<File, Error>) {
        let key = path.to_owned();
        let mut i: usize = self.inner.len();
        assert(self.inner@.take(i as int) =~= self.inner@);
        while i > 0
            invariant
                i <= self.inner@.len(),
                key@ == path@,
                lookup(self.inner@, path@) == lookup(self.inner@.take(i as int), path@),
            decreases i,
        {
            assert(self.inner@.take(i as int).drop_last() =~= self.inner@.take(i - 1));
            if self.inner[i - 1].0 == key {
                return Ok(File::from_ram(self.inner[i - 1].1.as_slice()));
            }
            i = i - 1;
        }
        Err(Error::FileNotFound)
    }
}

} // verus!
