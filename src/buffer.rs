//! A fixed-capacity byte store that stages output until it is drained.
use vstd::prelude::*;
use vstd::slice::slice_subrange;

verus! {

/// Bytes written so far sit in `bytes[..watermark]`; the rest of the storage is
/// allocated up front and never grows.
pub struct Buffer {
    bytes: Vec<u8>,
    capacity: usize,
    watermark: usize,
}

impl View for Buffer {
    type V = Seq<u8>;

    /// The bytes written since the buffer was created or last cleared.
    closed spec fn view(&self) -> Seq<u8> {
        self.bytes@.subrange(0, self.watermark as int)
    }
}

impl Buffer {
    pub closed spec fn wf(&self) -> bool {
        &&& self.bytes@.len() == self.capacity
        &&& self.watermark <= self.capacity
    }

    /// The fixed number of bytes the buffer can hold.
    pub closed spec fn spec_capacity(&self) -> nat {
        self.capacity as nat
    }

    pub proof fn lemma_within_capacity(&self)
        requires
            self.wf(),
        ensures
            self@.len() <= self.spec_capacity(),
    {
    }

    pub fn new(capacity: usize) -> (r: Self)
        ensures
            r.wf(),
            r@ == Seq::<u8>::empty(),
            r.spec_capacity() == capacity,
    {
        let b = Buffer { bytes: vec![0; capacity], capacity, watermark: 0 };
        assert(b@ =~= Seq::<u8>::empty());
        b
    }

    pub fn capacity(&self) -> (r: usize)
        requires
            self.wf(),
        ensures
            r == self.spec_capacity(),
    {
        self.capacity
    }

    /// Number of bytes written.
    pub fn len(&self) -> (r: usize)
        requires
            self.wf(),
        ensures
            r == self@.len(),
    {
        self.watermark
    }

    /// Appends `chunk` whole, or, when it does not fit in what is left of the
    /// capacity, fails and leaves the buffer as it was.
    pub fn write(&mut self, chunk: Vec<u8>) -> (r: Result<(), &'static str>)
        requires
            old(self).wf(),
        ensures
            final(self).wf(),
            final(self).spec_capacity() == old(self).spec_capacity(),
            r is Ok <==> old(self)@.len() + chunk@.len() <= old(self).spec_capacity(),
            r is Ok ==> final(self)@ == old(self)@ + chunk@,
            r is Err ==> final(self)@ == old(self)@,
    {
        let chunk_len = chunk.len();
        if chunk_len <= self.capacity - self.watermark {
            let start = self.watermark;
            let mut i: usize = 0;
            while i < chunk_len
                invariant
                    self.bytes@.len() == self.capacity,
                    self.capacity == old(self).capacity,
                    self.watermark == start,
                    start == old(self).watermark,
                    chunk_len == chunk@.len(),
                    start + chunk_len <= self.capacity,
                    i <= chunk_len,
                    forall|k: int| 0 <= k < start ==> self.bytes@[k] == old(self).bytes@[k],
                    forall|k: int| 0 <= k < i ==> self.bytes@[start + k] == chunk@[k],
                decreases chunk_len - i,
            {
                self.bytes.set(start + i, chunk[i]);
                i += 1;
            }
            self.watermark = start + chunk_len;
            assert(self@ =~= old(self)@ + chunk@);
            Ok(())
        } else {
            Err("Buffer capacity exceeded")
        }
    }

    /// The byte at `pos`, if that many bytes have been written.
    pub fn peek_at(&self, pos: usize) -> (r: Option<u8>)
        requires
            self.wf(),
        ensures
            pos < self@.len() ==> r == Some(self@[pos as int]),
            pos >= self@.len() ==> r is None,
    {
        if pos < self.watermark {
            Some(self.bytes[pos])
        } else {
            None
        }
    }

    /// The written bytes in `[start, end)`.
    pub fn slice(&self, start: usize, end: usize) -> (r: &[u8])
        requires
            self.wf(),
            start <= end <= self@.len(),
        ensures
            r@ == self@.subrange(start as int, end as int),
    {
        let r = slice_subrange(self.bytes.as_slice(), start, end);
        assert(r@ =~= self@.subrange(start as int, end as int));
        r
    }

    /// Drains the buffer: everything written is dropped and the whole capacity
    /// is available again.
    pub fn clear(&mut self)
        requires
            old(self).wf(),
        ensures
            final(self).wf(),
            final(self).spec_capacity() == old(self).spec_capacity(),
            final(self)@ == Seq::<u8>::empty(),
    {
        self.watermark = 0;
        assert(self@ =~= Seq::<u8>::empty());
    }
}

} // verus!
