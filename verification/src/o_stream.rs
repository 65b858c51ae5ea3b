//! The write cursor.

use vstd::prelude::*;

verus! {

/// An append-only cursor over a buffer that the caller lends.
///
/// The stream owns no memory. Its view is what has been written so far; the
/// rest of the buffer is untouched. Writing past the end of the buffer is left
/// out by the preconditions: the caller sizes the buffer.
pub struct OStream<'a> {
    buf: &'a mut [u8],
    pos: usize,
}

impl<'a> OStream<'a> {
    #[verifier::type_invariant]
    spec fn inv(self) -> bool {
        self.pos <= self.buf@.len()
    }

    /// The bytes written so far.
    pub closed spec fn view(&self) -> Seq<u8> {
        self.buf@.subrange(0, self.pos as int)
    }

    /// How many more bytes fit.
    pub closed spec fn free(&self) -> nat {
        (self.buf@.len() - self.pos) as nat
    }

    /// The borrowed buffer. Its final value is what the lender finds once the
    /// stream is gone.
    pub closed spec fn target(&self) -> &'a mut [u8] {
        self.buf
    }

    /// `self` is `before` with `bytes` appended and nothing else changed.
    pub open spec fn extends(&self, before: &Self, bytes: Seq<u8>) -> bool {
        &&& self@ =~= before@ + bytes
        &&& self.free() + bytes.len() == before.free()
    }

    /// Starts writing at the front of `buf`.
    pub fn new(buf: &'a mut [u8]) -> (stream: Self)
        ensures
            stream@ == Seq::<u8>::empty(),
            stream.free() == old(buf)@.len(),
            final(stream.target())@ == final(buf)@,
    {
        OStream { buf, pos: 0 }
    }

    /// Commits `data` to the stream.
    pub fn write(&mut self, data: &[u8])
        requires
            data@.len() <= old(self).free(),
        ensures
            final(self).extends(old(self), data@),
            final(final(self).target())@ == final(old(self).target())@,
    {
        proof {
            use_type_invariant(&*self);
        }
        let ghost start = self@;
        let mut i: usize = 0;
        while i < data.len()
            invariant
                i <= data@.len(),
                self.pos + (data@.len() - i) <= self.buf@.len(),
                self.buf@.len() == old(self).buf@.len(),
                self.buf@.subrange(0, self.pos as int) == start + data@.take(i as int),
                final(self.buf)@ == final(old(self).buf)@,
            decreases data@.len() - i,
        {
            let ghost before = self.buf@;
            self.buf[self.pos] = data[i];
            assert(self.buf@ == before.update(self.pos as int, data@[i as int]));
            assert(self.buf@.subrange(0, self.pos + 1) =~= before.subrange(0, self.pos as int).push(
                data@[i as int],
            ));
            assert(data@.take(i + 1) =~= data@.take(i as int).push(data@[i as int]));
            self.pos = self.pos + 1;
            i = i + 1;
        }
        assert(data@.take(data@.len() as int) =~= data@);
    }

    /// How many more bytes fit.
    pub fn remaining(&self) -> (n: usize)
        ensures
            n == self.free(),
    {
        proof {
            use_type_invariant(self);
        }
        self.buf.len() - self.pos
    }

    /// Ends the stream and says how many bytes it wrote. They stand at the
    /// front of the lender's buffer.
    pub fn close(self) -> (n: usize)
        ensures
            n == self@.len(),
            final(self.target())@.len() == self@.len() + self.free(),
            final(self.target())@.take(n as int) == self@,
    {
        proof {
            use_type_invariant(&self);
        }
        self.pos
    }
}

} // verus!
