use vstd::prelude::*;
use vstd::slice::slice_to_vec;

verus! {

/// An open, sequentially readable byte source.
///
/// The handle owns the bytes it reads from and a cursor into them.
#[derive(Debug)]
pub struct File {
    data: Vec<u8>,
    pos: usize,
}

impl File {
    /// Every byte the handle was opened on.
    pub closed spec fn bytes(&self) -> Seq<u8> {
        self.data@
    }

    /// How many bytes have been read so far.
    pub closed spec fn position(&self) -> nat {
        self.pos as nat
    }

    /// The bytes that a read has yet to return.
    pub open spec fn remaining(&self) -> Seq<u8> {
        self.bytes().skip(self.position() as int)
    }

    pub closed spec fn wf(&self) -> bool {
        self.pos <= self.data.len()
    }

    /// A fresh handle over `data`.
    pub open spec fn is_fresh_over(&self, data: Seq<u8>) -> bool {
        &&& self.wf()
        &&& self.bytes() == data
        &&& self.position() == 0
    }

    /// A handle positioned at the start of `data`.
    pub fn from_bytes(data: Vec<u8>) -> (r: File)
        ensures
            r.is_fresh_over(data@),
    {
        File { data, pos: 0 }
    }

    /// A handle over a copy of the in-memory buffer `data`.
    pub fn from_ram(data: &[u8]) -> (r: File)
        ensures
            r.is_fresh_over(data@),
    {
        File { data: slice_to_vec(data), pos: 0 }
    }

    /// Reads up to `buf.len()` bytes into the front of `buf` and returns how many.
    pub fn read(&mut self, buf: &mut [u8]) -> (n: usize)
        requires
            old(self).wf(),
        ensures
            final(self).wf(),
            final(self).bytes() == old(self).bytes(),
            n == vstd::math::min(old(buf)@.len() as int, old(self).remaining().len() as int),
            final(self).position() == old(self).position() + n,
            final(buf)@.len() == old(buf)@.len(),
            final(buf)@.take(n as int) == old(self).remaining().take(n as int),
            final(buf)@.skip(n as int) == old(buf)@.skip(n as int),
    {
        let avail: usize = self.data.len() - self.pos;
        let n: usize = if buf.len() < avail { buf.len() } else { avail };
        let ghost start = self.pos as int;
        let mut i: usize = 0;
        while i < n
            invariant
                self.wf(),
                self.pos == start,
                0 <= start,
                start + n <= self.data.len(),
                i <= n,
                n <= buf@.len(),
                buf@.len() == old(buf)@.len(),
                forall|k: int| 0 <= k < i ==> buf@[k] == self.data@[start + k],
                forall|k: int| n <= k < buf@.len() ==> buf@[k] == old(buf)@[k],
            decreases n - i,
        {
            buf[i] = self.data[self.pos + i];
            i = i + 1;
        }
        self.pos = self.pos + n;
        assert(buf@.take(n as int) =~= old(self).remaining().take(n as int));
        assert(buf@.skip(n as int) =~= old(buf)@.skip(n as int));
        n
    }

    /// Appends every remaining byte to `out` and returns how many.
    pub fn read_to_end(&mut self, out: &mut Vec<u8>) -> (n: usize)
        requires
            old(self).wf(),
        ensures
            final(self).wf(),
            final(self).bytes() == old(self).bytes(),
            final(self).remaining().len() == 0,
            final(out)@ == old(out)@ + old(self).remaining(),
            n == old(self).remaining().len(),
    {
        let first: usize = self.pos;
        let ghost start = self.pos as int;
        let ghost prefix = out@;
        while self.pos < self.data.len()
            invariant
                self.wf(),
                self.data@ == old(self).data@,
                0 <= start <= self.pos,
                start == first,
                out@ == prefix + self.data@.subrange(start, self.pos as int),
            decreases self.data.len() - self.pos,
        {
            out.push(self.data[self.pos]);
            assert(self.data@.subrange(start, self.pos + 1) =~= self.data@.subrange(
                start,
                self.pos as int,
            ).push(self.data@[self.pos as int]));
            self.pos = self.pos + 1;
        }
        assert(self.data@.subrange(start, self.pos as int) =~= old(self).remaining());
        assert(self.remaining() =~= Seq::<u8>::empty());
        self.pos - first
    }
}

} // verus!
