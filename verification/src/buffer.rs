//! Frame buffer: a byte region of negotiated capacity with consume and fill
//! cursors and checkpoint/rollback bracketing tentative writes. The view of
//! a buffer is its unconsumed content; rollback is exact, so a failed
//! serialization never corrupts prior bytes.

use vstd::prelude::*;

verus! {

/// Growable byte buffer with a consume cursor. `data[start..]` is the
/// unconsumed content; its length never exceeds `capacity`.
pub struct Buffer {
    pub data: Vec<u8>,
    pub start: usize,
    pub capacity: usize,
}

impl View for Buffer {
    type V = Seq<u8>;

    /// The unconsumed content.
    open spec fn view(&self) -> Seq<u8> {
        self.data@.skip(self.start as int)
    }
}

impl Buffer {
    pub open spec fn wf(self) -> bool {
        &&& self.start <= self.data@.len()
        &&& self.data@.len() - self.start <= self.capacity
    }

    pub fn with_capacity(capacity: usize) -> (r: Buffer)
        ensures
            r.wf(),
            r@ == Seq::<u8>::empty(),
            r.capacity == capacity,
    {
        let r = Buffer { data: Vec::new(), start: 0, capacity };
        proof {
            assert(r@ =~= Seq::<u8>::empty());
        }
        r
    }

    /// Bytes available for consumption (staged and unflushed, or received
    /// and unparsed).
    pub fn available_data(&self) -> (r: usize)
        requires
            self.wf(),
        ensures
            r == self@.len(),
    {
        self.data.len() - self.start
    }

    /// Room left before the capacity is reached.
    pub fn available_space(&self) -> (r: usize)
        requires
            self.wf(),
        ensures
            r == self.capacity - self@.len(),
    {
        self.capacity - (self.data.len() - self.start)
    }

    /// Raise the capacity to `capacity` if it is larger; the buffer grows,
    /// never shrinks, and its content is untouched.
    pub fn grow(&mut self, capacity: usize)
        requires
            old(self).wf(),
        ensures
            final(self).wf(),
            final(self)@ == old(self)@,
            final(self).capacity == if capacity > old(self).capacity {
                capacity
            } else {
                old(self).capacity
            },
    {
        if capacity > self.capacity {
            self.capacity = capacity;
        }
    }

    /// Append `bytes` to the unconsumed content.
    pub fn push_bytes(&mut self, bytes: &Vec<u8>)
        requires
            old(self).wf(),
            bytes@.len() <= old(self).capacity - old(self)@.len(),
        ensures
            final(self).wf(),
            final(self)@ == old(self)@ + bytes@,
            final(self).capacity == old(self).capacity,
            final(self).start == old(self).start,
    {
        let mut i: usize = 0;
        while i < bytes.len()
            invariant
                i <= bytes@.len(),
                bytes@.len() <= old(self).capacity - old(self)@.len(),
                old(self).wf(),
                self.start == old(self).start,
                self.capacity == old(self).capacity,
                self.data@ == old(self).data@ + bytes@.take(i as int),
            decreases bytes@.len() - i,
        {
            self.data.push(bytes[i]);
            i = i + 1;
            proof {
                assert(self.data@ =~= old(self).data@ + bytes@.take(i as int));
            }
        }
        proof {
            assert(bytes@.take(bytes@.len() as int) =~= bytes@);
            assert(self@ =~= old(self)@ + bytes@);
        }
    }

    /// Drop `n` bytes from the front of the unconsumed content.
    pub fn consume(&mut self, n: usize)
        requires
            old(self).wf(),
            n <= old(self)@.len(),
        ensures
            final(self).wf(),
            final(self)@ == old(self)@.skip(n as int),
            final(self).capacity == old(self).capacity,
    {
        let len = self.data.len();
        assert(self.start + n <= len);
        self.start = self.start + n;
        proof {
            assert(self@ =~= old(self)@.skip(n as int));
        }
    }

    /// Save the fill cursor before a tentative write.
    pub fn checkpoint(&self) -> (r: usize)
        requires
            self.wf(),
        ensures
            r == self.data@.len(),
    {
        self.data.len()
    }

    /// Restore the fill cursor saved by `checkpoint`: everything written
    /// after it is discarded, and the content is byte-identical to the
    /// pre-checkpoint state.
    pub fn rollback(&mut self, checkpoint: usize)
        requires
            old(self).wf(),
            old(self).start <= checkpoint <= old(self).data@.len(),
        ensures
            final(self).wf(),
            final(self)@ == old(self)@.take(checkpoint - old(self).start),
            final(self).capacity == old(self).capacity,
            final(self).start == old(self).start,
    {
        self.data.truncate(checkpoint);
        proof {
            assert(self@ =~= old(self)@.take(checkpoint - old(self).start));
        }
    }

    /// A copy of the unconsumed content, for handing to a sink or a parser.
    pub fn contents(&self) -> (r: Vec<u8>)
        requires
            self.wf(),
        ensures
            r@ == self@,
    {
        let mut r: Vec<u8> = Vec::new();
        let mut i: usize = self.start;
        while i < self.data.len()
            invariant
                self.wf(),
                self.start <= i <= self.data@.len(),
                r@ == self.data@.subrange(self.start as int, i as int),
            decreases self.data@.len() - i,
        {
            let b = self.data[i];
            r.push(b);
            i = i + 1;
            proof {
                assert(r@ =~= self.data@.subrange(self.start as int, i as int));
            }
        }
        proof {
            assert(r@ =~= self@);
        }
        r
    }
}

/// Checkpoint/rollback round-trip is exact: writing any bytes after a
/// checkpoint and then rolling back leaves the consumable content
/// byte-identical to the pre-checkpoint state.
pub proof fn lemma_rollback_exact(before: Seq<u8>, tentative: Seq<u8>)
    ensures
        (before + tentative).take(before.len() as int) == before,
{
    assert((before + tentative).take(before.len() as int) =~= before);
}

} // verus!
