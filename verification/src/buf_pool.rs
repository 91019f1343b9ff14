//! The pool of packet buffers: a fixed number of byte regions of one size,
//! which are lent out and given back.

use vstd::prelude::*;

verus! {

/// A buffer that the pool lent out: a region of the pool's size, of which
/// the first `len` bytes are in use.
#[derive(Debug)]
pub struct PktBufHandle {
    pub data: Vec<u8>,
    pub len: usize,
}

/// The pool.
#[derive(Debug)]
pub struct PktBufPool {
    /// The buffers that are not lent out.
    pub free: Vec<Vec<u8>>,
    /// The size of every buffer, in bytes.
    pub size: usize,
    /// The number of buffers that the pool may have in all.
    pub capacity: usize,
    /// The number of buffers that are lent out.
    pub lent: usize,
}

impl PktBufHandle {
    /// Whether the part in use lies within the region.
    pub open spec fn wf(&self) -> bool {
        self.len <= self.data@.len()
    }

    /// The bytes in use.
    pub open spec fn ready(&self) -> Seq<u8> {
        self.data@.subrange(0, self.len as int)
    }

    /// A copy of the bytes in use.
    pub fn as_ready(&self) -> (r: Vec<u8>)
        requires
            self.wf(),
        ensures
            r@ == self.ready(),
    {
        crate::text::copy_range(self.data.as_slice(), 0, self.len)
    }
}

impl PktBufPool {
    /// Whether the pool has no more buffers than it may, and each buffer
    /// that is not lent out has the pool's size.
    pub open spec fn wf(&self) -> bool {
        &&& self.free@.len() + self.lent <= self.capacity
        &&& forall|i: int| 0 <= i < self.free@.len() ==> (#[trigger] self.free@[i])@.len() == self.size
    }

    /// A pool of at most `capacity` buffers of `size` bytes.
    pub fn new(size: usize, capacity: usize) -> (p: PktBufPool)
        ensures
            p.wf(),
            p.size == size,
            p.capacity == capacity,
            p.lent == 0,
            p.free@.len() == 0,
    {
        PktBufPool { free: Vec::new(), size, capacity, lent: 0 }
    }

    /// Lends a buffer with no byte in use: one that was given back, else a
    /// new one where the pool may have one more. There is none while as
    /// many buffers are lent out as the pool may have.
    pub fn obtain(&mut self) -> (r: Option<PktBufHandle>)
        requires
            old(self).wf(),
        ensures
            final(self).wf(),
            final(self).size == old(self).size,
            final(self).capacity == old(self).capacity,
            match r {
                Some(buf) => {
                    &&& old(self).lent < old(self).capacity
                    &&& final(self).lent == old(self).lent + 1
                    &&& buf.len == 0
                    &&& buf.data@.len() == old(self).size
                    &&& final(self).free@ == if old(self).free@.len() > 0 {
                        old(self).free@.drop_last()
                    } else {
                        old(self).free@
                    }
                },
                None => old(self).lent == old(self).capacity && *final(self) == *old(self),
            },
    {
        if self.lent >= self.capacity {
            return None;
        }
        let data = match self.free.pop() {
            Some(data) => {
                assert(data == old(self).free@[old(self).free@.len() - 1]);
                data
            },
            None => vec![0u8; self.size],
        };
        self.lent = self.lent + 1;
        Some(PktBufHandle { data, len: 0 })
    }

    /// Takes back a buffer. One that the pool cannot have lent out, because
    /// it lent none or because the buffer is not of its size, is not taken.
    /// Returns whether the buffer was taken.
    pub fn release(&mut self, buf: PktBufHandle) -> (taken: bool)
        requires
            old(self).wf(),
        ensures
            final(self).wf(),
            final(self).size == old(self).size,
            final(self).capacity == old(self).capacity,
            taken == (old(self).lent > 0 && buf.data@.len() == old(self).size),
            if taken {
                final(self).lent == old(self).lent - 1 && final(self).free@ == old(self).free@.push(
                    buf.data,
                )
            } else {
                *final(self) == *old(self)
            },
    {
        if self.lent == 0 || buf.data.len() != self.size {
            return false;
        }
        self.free.push(buf.data);
        self.lent = self.lent - 1;
        true
    }
}

} // verus!
