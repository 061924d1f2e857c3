//! The stream that a seeker reads from.

use vstd::prelude::*;

verus! {

/// A stream of bytes of fixed length that can be read at any offset.
///
/// A stream is modelled by the bytes it holds, by the offset at which its
/// cursor stands, by the number of times it has been accessed, and by the
/// error with which a read of it last failed. No operation changes the
/// bytes, and every operation counts as an access.
///
/// The model is given by the implementation: a verified one states it by
/// giving the five functions below a body, and proves the contracts of the
/// operations against them. By default nothing is known of them, and the
/// stream is taken to be one whose reads can fail. What is proved of a
/// seeker holds over every stream whose operations meet their contracts.
pub trait ByteStream {
    /// The bytes of the stream, from the first to the last.
    open spec fn view(&self) -> Seq<u8> {
        arbitrary()
    }

    /// The offset at which the stream's cursor stands.
    open spec fn position(&self) -> nat {
        arbitrary()
    }

    /// The number of operations that the stream has performed.
    open spec fn accesses(&self) -> nat {
        arbitrary()
    }

    /// Whether a read that lies inside the stream always succeeds.
    open spec fn reliable(&self) -> bool {
        false
    }

    /// The error of the last read that failed.
    open spec fn last_error(&self) -> Option<std::io::Error> {
        arbitrary()
    }

    /// The number of bytes in the stream. The cursor may stand anywhere
    /// afterwards.
    fn total_length(&mut self) -> (n: usize)
        ensures
            n == old(self)@.len(),
            final(self)@ == old(self)@,
            final(self).reliable() == old(self).reliable(),
            final(self).accesses() > old(self).accesses(),
    ;

    /// Moves the cursor to `offset`, counted from the start of the stream.
    fn seek(&mut self, offset: usize)
        ensures
            final(self)@ == old(self)@,
            final(self).reliable() == old(self).reliable(),
            final(self).accesses() > old(self).accesses(),
            final(self).position() == offset,
    ;

    /// Fills `buf` with the `buf.len()` bytes that start at `offset` and
    /// leaves the cursor behind the last of them. A read that cannot be
    /// completed is an error, never a partial result.
    fn read_exact_at(&mut self, offset: usize, buf: &mut Vec<u8>) -> (r: Result<
        (),
        std::io::Error,
    >)
        requires
            offset + old(buf)@.len() <= old(self)@.len(),
        ensures
            final(self)@ == old(self)@,
            final(self).reliable() == old(self).reliable(),
            final(self).accesses() > old(self).accesses(),
            final(buf)@.len() == old(buf)@.len(),
            r is Ok ==> final(buf)@ == old(self)@.subrange(
                offset as int,
                offset + old(buf)@.len(),
            ),
            r is Ok ==> final(self).position() == offset + old(buf)@.len(),
            r matches Err(e) ==> final(self).last_error() == Some(e),
            old(self).reliable() ==> r is Ok,
    ;
}

/// A stream over bytes held in memory. Its reads never fail.
pub struct MemoryStream {
    bytes: Vec<u8>,
    pos: usize,
    accesses: Ghost<nat>,
}

impl MemoryStream {
    /// A stream over `bytes`, with the cursor at the start.
    pub fn new(bytes: Vec<u8>) -> (s: MemoryStream)
        ensures
            s@ == bytes@,
            s.position() == 0,
            s.accesses() == 0,
            s.reliable(),
    {
        MemoryStream { bytes, pos: 0, accesses: Ghost(0) }
    }

    /// The offset at which the cursor stands.
    pub fn tell(&self) -> (p: usize)
        ensures
            p == self.position(),
    {
        self.pos
    }

    /// Gives the bytes back.
    pub fn into_inner(self) -> (bytes: Vec<u8>)
        ensures
            bytes@ == self@,
    {
        self.bytes
    }
}

impl ByteStream for MemoryStream {
    closed spec fn view(&self) -> Seq<u8> {
        self.bytes@
    }

    closed spec fn position(&self) -> nat {
        self.pos as nat
    }

    closed spec fn accesses(&self) -> nat {
        self.accesses@
    }

    open spec fn reliable(&self) -> bool {
        true
    }

    open spec fn last_error(&self) -> Option<std::io::Error> {
        None
    }

    fn total_length(&mut self) -> (n: usize) {
        self.accesses = Ghost((self.accesses@ + 1) as nat);
        self.bytes.len()
    }

    fn seek(&mut self, offset: usize) {
        self.accesses = Ghost((self.accesses@ + 1) as nat);
        self.pos = offset;
    }

    fn read_exact_at(&mut self, offset: usize, buf: &mut Vec<u8>) -> (r: Result<
        (),
        std::io::Error,
    >) {
        let n = buf.len();
        let mut i: usize = 0;
        while i < n
            invariant
                i <= n,
                n == buf@.len(),
                offset + n <= self.bytes.len(),
                *self == *old(self),
                forall|k: int| 0 <= k < i ==> buf@[k] == self.bytes@[offset + k],
            decreases n - i,
        {
            buf[i] = self.bytes[offset + i];
            i += 1;
        }
        self.pos = offset + n;
        self.accesses = Ghost((self.accesses@ + 1) as nat);
        assert(buf@ =~= self.bytes@.subrange(offset as int, offset + n));
        Ok(())
    }
}

} // verus!
