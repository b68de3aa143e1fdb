//! A forward-only cursor over an in-memory byte buffer.
use vstd::prelude::*;
use vstd::bytes::{spec_u64_from_le_bytes, u64_from_le_bytes};
use vstd::slice::slice_subrange;

verus! {

/// A cursor over a borrowed byte buffer; bytes before the cursor have been consumed.
pub struct BufferedScanner<'a> {
    d: &'a [u8],
    cursor: usize,
}

impl<'a> BufferedScanner<'a> {
    /// The whole buffer.
    pub closed spec fn data(&self) -> Seq<u8> {
        self.d@
    }

    /// The position of the cursor.
    pub closed spec fn pos(&self) -> int {
        self.cursor as int
    }

    /// The cursor never passes the end of the buffer.
    pub closed spec fn wf(&self) -> bool {
        self.cursor <= self.d@.len()
    }

    /// The bytes not yet consumed.
    pub open spec fn rest(&self) -> Seq<u8> {
        self.data().subrange(self.pos(), self.data().len() as int)
    }

    /// A scanner at the start of `d`.
    pub fn new(d: &'a [u8]) -> (r: Self)
        ensures
            r.wf(),
            r.data() == d@,
            r.pos() == 0,
            r.rest() == d@,
    {
        let r = BufferedScanner { d, cursor: 0 };
        assert(r.rest() =~= d@);
        r
    }

    /// The length of the whole buffer.
    pub fn buffer_len(&self) -> (r: usize)
        ensures
            r == self.data().len(),
    {
        self.d.len()
    }

    /// How many bytes are left.
    pub fn remaining(&self) -> (r: usize)
        requires
            self.wf(),
        ensures
            r == self.rest().len(),
            r == self.data().len() - self.pos(),
    {
        self.d.len() - self.cursor
    }

    /// How many bytes were consumed.
    pub fn consumed(&self) -> (r: usize)
        ensures
            r == self.pos(),
    {
        self.cursor
    }

    /// Whether every byte was consumed.
    pub fn eof(&self) -> (r: bool)
        requires
            self.wf(),
        ensures
            r == (self.rest().len() == 0),
    {
        self.cursor == self.d.len()
    }

    /// Whether at least `n` bytes are left.
    pub fn has_left(&self, n: usize) -> (r: bool)
        requires
            self.wf(),
        ensures
            r == (self.rest().len() >= n),
    {
        self.d.len() - self.cursor >= n
    }

    /// Consumes one byte.
    pub fn next_byte(&mut self) -> (r: u8)
        requires
            old(self).wf(),
            old(self).rest().len() >= 1,
        ensures
            final(self).wf(),
            final(self).data() == old(self).data(),
            final(self).pos() == old(self).pos() + 1,
            r == old(self).rest()[0],
            final(self).rest() == old(self).rest().subrange(1, old(self).rest().len() as int),
    {
        let b = self.d[self.cursor];
        self.cursor = self.cursor + 1;
        assert(self.rest() =~= old(self).rest().subrange(1, old(self).rest().len() as int));
        b
    }

    /// Consumes `n` bytes and hands them out.
    pub fn next_chunk_variable(&mut self, n: usize) -> (r: &'a [u8])
        requires
            old(self).wf(),
            old(self).rest().len() >= n,
        ensures
            final(self).wf(),
            final(self).data() == old(self).data(),
            final(self).pos() == old(self).pos() + n,
            r@ == old(self).rest().subrange(0, n as int),
            final(self).rest() == old(self).rest().subrange(n as int, old(self).rest().len() as int),
    {
        let start = self.cursor;
        let len = self.d.len();
        assert(start + n <= len);
        let r = slice_subrange(self.d, start, start + n);
        self.cursor = start + n;
        assert(r@ =~= old(self).rest().subrange(0, n as int));
        assert(self.rest() =~= old(self).rest().subrange(n as int, old(self).rest().len() as int));
        r
    }

    /// Consumes eight bytes and reads them as a little-endian `u64`.
    pub fn next_u64_le(&mut self) -> (r: u64)
        requires
            old(self).wf(),
            old(self).rest().len() >= 8,
        ensures
            final(self).wf(),
            final(self).data() == old(self).data(),
            final(self).pos() == old(self).pos() + 8,
            r == spec_u64_from_le_bytes(old(self).rest().subrange(0, 8)),
            final(self).rest() == old(self).rest().subrange(8, old(self).rest().len() as int),
    {
        let s = self.next_chunk_variable(8);
        u64_from_le_bytes(s)
    }
}

/// The unconsumed bytes of a well-formed scanner are the buffer after the cursor.
pub broadcast proof fn lemma_scanner_rest(s: &BufferedScanner)
    requires
        s.wf(),
    ensures
        0 <= s.pos() <= s.data().len(),
        #[trigger] s.rest().len() == s.data().len() - s.pos(),
{
}

} // verus!
