//! A growable in-memory byte sink: an append-only buffer a writer can
//! fill and hand back as a plain byte vector.

use vstd::prelude::*;

verus! {

/// An append-only byte buffer.
pub struct BufferedWriter {
    buf: Vec<u8>,
}

impl View for BufferedWriter {
    type V = Seq<u8>;

    closed spec fn view(&self) -> Seq<u8> {
        self.buf@
    }
}

impl BufferedWriter {
    /// Constructs an empty buffer.
    pub fn new() -> (w: BufferedWriter)
        ensures
            w@ == Seq::<u8>::empty(),
    {
        BufferedWriter { buf: Vec::new() }
    }

    /// Constructs an empty buffer with room for `capacity` bytes.
    pub fn with_capacity(capacity: usize) -> (w: BufferedWriter)
        ensures
            w@ == Seq::<u8>::empty(),
    {
        BufferedWriter { buf: Vec::with_capacity(capacity) }
    }

    /// Hands the accumulated bytes back.
    pub fn into_buffer(self) -> (v: Vec<u8>)
        ensures
            v@ == self@,
    {
        self.buf
    }

    /// Appends all of `data` and returns how many bytes were taken,
    /// which is always all of them.
    pub fn write(&mut self, data: &[u8]) -> (n: usize)
        ensures
            final(self)@ == old(self)@ + data@,
            n == data@.len(),
    {
        let len = data.len();
        let mut i: usize = 0;
        proof {
            assert(self@ =~= old(self)@ + data@.subrange(0, 0));
        }
        while i < len
            invariant
                i <= len,
                len == data@.len(),
                self@ == old(self)@ + data@.subrange(0, i as int),
            decreases len - i,
        {
            let b = data[i];
            self.buf.push(b);
            proof {
                assert(old(self)@ + data@.subrange(0, i as int) + seq![data@[i as int]] =~= old(
                    self,
                )@ + data@.subrange(0, i + 1));
            }
            i += 1;
        }
        proof {
            assert(data@.subrange(0, len as int) =~= data@);
        }
        len
    }

    /// Does nothing: the buffer holds everything already.
    pub fn flush(&mut self)
        ensures
            final(self)@ == old(self)@,
    {
    }
}

} // verus!
