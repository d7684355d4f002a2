//! A byte buffer with a read position: what the binary decoder consumes.
use vstd::prelude::*;

verus! {

pub struct ByteStream {
    pub data: Vec<u8>,
    pub pos: usize,
}

impl ByteStream {
    pub open spec fn wf(self) -> bool {
        self.pos <= self.data@.len()
    }

    /// The bytes not yet consumed.
    pub open spec fn remaining(self) -> Seq<u8> {
        self.data@.subrange(self.pos as int, self.data@.len() as int)
    }

    pub fn new(data: Vec<u8>) -> (r: ByteStream)
        ensures
            r.wf(),
            r.data@ == data@,
            r.pos == 0,
    {
        ByteStream { data, pos: 0 }
    }

    /// The read position, as a stream offset for error reports.
    pub fn offset(&self) -> (r: u64)
        ensures
            r == self.pos,
    {
        self.pos as u64
    }

    pub fn read_byte(&mut self) -> (r: Option<u8>)
        requires
            old(self).wf(),
        ensures
            final(self).wf(),
            final(self).data == old(self).data,
            match r {
                Some(b) => old(self).remaining().len() > 0 && b == old(self).remaining()[0]
                    && final(self).pos == old(self).pos + 1,
                None => old(self).remaining().len() == 0 && final(self).pos == old(self).pos,
            },
    {
        if self.pos < self.data.len() {
            let b = self.data[self.pos];
            self.pos = self.pos + 1;
            Some(b)
        } else {
            None
        }
    }

    /// Read exactly `n` bytes, or nothing when fewer remain.
    pub fn read_chunk(&mut self, n: usize) -> (r: Option<Vec<u8>>)
        requires
            old(self).wf(),
        ensures
            final(self).wf(),
            final(self).data == old(self).data,
            match r {
                Some(v) => old(self).remaining().len() >= n && v@ == old(self).remaining().subrange(
                    0,
                    n as int,
                ) && final(self).pos == old(self).pos + n,
                None => old(self).remaining().len() < n && final(self).pos == old(self).pos,
            },
    {
        if self.data.len() - self.pos < n {
            return None;
        }
        let len = self.data.len();
        let mut v: Vec<u8> = Vec::new();
        let mut i: usize = 0;
        while i < n
            invariant
                self.wf(),
                len == self.data@.len(),
                self.pos + n <= self.data@.len(),
                i <= n,
                v@ =~= self.data@.subrange(self.pos as int, self.pos + i),
            decreases n - i,
        {
            v.push(self.data[self.pos + i]);
            assert(v@ =~= self.data@.subrange(self.pos as int, self.pos + i + 1));
            i = i + 1;
        }
        self.pos = self.pos + n;
        proof {
            assert(v@ =~= old(self).remaining().subrange(0, n as int));
        }
        Some(v)
    }
}

} // verus!
