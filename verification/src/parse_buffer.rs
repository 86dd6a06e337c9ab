//! The input buffer handshake messages are decoded from.

use vstd::prelude::*;

use crate::error::ParseError;

verus! {

/// A read cursor over a byte slice.
pub struct ParseBuffer<'b> {
    buffer: &'b [u8],
    pos: usize,
}

impl<'b> ParseBuffer<'b> {
    #[verifier::type_invariant]
    closed spec fn inv(self) -> bool {
        self.pos <= self.buffer@.len()
    }

    /// The bytes not read yet.
    pub closed spec fn remaining(&self) -> Seq<u8> {
        self.buffer@.skip(self.pos as int)
    }

    /// A cursor at the start of `buffer`.
    pub fn new(buffer: &'b [u8]) -> (r: Self)
        ensures
            r.remaining() == buffer@,
    {
        let r = ParseBuffer { buffer, pos: 0 };
        assert(buffer@.skip(0) =~= buffer@);
        r
    }

    /// How many bytes are left.
    pub fn remaining_len(&self) -> (r: usize)
        ensures
            r == self.remaining().len(),
    {
        proof { use_type_invariant(self); }
        self.buffer.len() - self.pos
    }

    /// Copy the next `dest.len()` bytes into `dest`.
    pub fn fill(&mut self, dest: &mut [u8]) -> (r: Result<(), ParseError>)
        ensures
            r is Ok <==> old(dest)@.len() <= old(self).remaining().len(),
            r is Ok ==> final(dest)@ == old(self).remaining().take(old(dest)@.len() as int)
                && final(self).remaining() == old(self).remaining().skip(old(dest)@.len() as int),
            r is Err ==> r == Err::<(), ParseError>(ParseError::InsufficientBytes)
                && final(dest)@ == old(dest)@ && final(self).remaining() == old(self).remaining(),
    {
        proof { use_type_invariant(&*self); }
        if dest.len() > self.buffer.len() - self.pos {
            return Err(ParseError::InsufficientBytes);
        }
        let ghost rem = self.remaining();
        let n = dest.len();
        let src = self.buffer;
        let pos = self.pos;
        let total = src.len();
        let mut i: usize = 0;
        while i < n
            invariant
                total == src@.len(),
                n == dest@.len(),
                pos + n <= src@.len(),
                rem == src@.skip(pos as int),
                i <= n,
                forall|j: int| 0 <= j < i ==> dest@[j] == rem[j],
            decreases n - i,
        {
            dest[i] = src[pos + i];
            i = i + 1;
        }
        assert(dest@ =~= rem.take(n as int));
        self.pos = self.pos + n;
        assert(self.remaining() =~= rem.skip(n as int));
        Ok(())
    }

    /// Read one byte.
    pub fn read_u8(&mut self) -> (r: Result<u8, ParseError>)
        ensures
            r is Ok <==> old(self).remaining().len() >= 1,
            r matches Ok(b) ==> b == old(self).remaining()[0]
                && final(self).remaining() == old(self).remaining().skip(1),
            r is Err ==> r == Err::<u8, ParseError>(ParseError::InsufficientBytes)
                && final(self).remaining() == old(self).remaining(),
    {
        proof { use_type_invariant(&*self); }
        if self.pos >= self.buffer.len() {
            return Err(ParseError::InsufficientBytes);
        }
        let ghost rem = self.remaining();
        let b = self.buffer[self.pos];
        self.pos = self.pos + 1;
        assert(self.remaining() =~= rem.skip(1));
        Ok(b)
    }

    /// Read a big-endian `u16`.
    pub fn read_u16(&mut self) -> (r: Result<u16, ParseError>)
        ensures
            r is Ok <==> old(self).remaining().len() >= 2,
            r matches Ok(v) ==> v == old(self).remaining()[0] as int * 256 + old(self).remaining()[1] as int
                && final(self).remaining() == old(self).remaining().skip(2),
            r is Err ==> r == Err::<u16, ParseError>(ParseError::InsufficientBytes)
                && final(self).remaining() == old(self).remaining(),
    {
        proof { use_type_invariant(&*self); }
        if self.buffer.len() - self.pos < 2 {
            return Err(ParseError::InsufficientBytes);
        }
        let ghost rem = self.remaining();
        let hi = self.buffer[self.pos] as u16;
        let lo = self.buffer[self.pos + 1] as u16;
        self.pos = self.pos + 2;
        assert(self.remaining() =~= rem.skip(2));
        Ok(hi * 256 + lo)
    }

    /// Split off the next `len` bytes as a cursor of their own.
    pub fn slice(&mut self, len: usize) -> (r: Result<ParseBuffer<'b>, ParseError>)
        ensures
            r is Ok <==> len <= old(self).remaining().len(),
            r matches Ok(p) ==> p.remaining() == old(self).remaining().take(len as int)
                && final(self).remaining() == old(self).remaining().skip(len as int),
            r is Err ==> r == Err::<ParseBuffer<'b>, ParseError>(ParseError::InsufficientBytes)
                && final(self).remaining() == old(self).remaining(),
    {
        proof { use_type_invariant(&*self); }
        if len > self.buffer.len() - self.pos {
            return Err(ParseError::InsufficientBytes);
        }
        let ghost rem = self.remaining();
        let sub = &self.buffer[self.pos..self.pos + len];
        self.pos = self.pos + len;
        assert(self.remaining() =~= rem.skip(len as int));
        let p = ParseBuffer::new(sub);
        assert(sub@ =~= rem.take(len as int));
        Ok(p)
    }

    /// Read the next `len` bytes as a borrowed slice.
    pub fn read_slice(&mut self, len: usize) -> (r: Result<&'b [u8], ParseError>)
        ensures
            r is Ok <==> len <= old(self).remaining().len(),
            r matches Ok(v) ==> v@ == old(self).remaining().take(len as int)
                && final(self).remaining() == old(self).remaining().skip(len as int),
            r is Err ==> r == Err::<&'b [u8], ParseError>(ParseError::InsufficientBytes)
                && final(self).remaining() == old(self).remaining(),
    {
        proof { use_type_invariant(&*self); }
        if len > self.buffer.len() - self.pos {
            return Err(ParseError::InsufficientBytes);
        }
        let ghost rem = self.remaining();
        let sub = &self.buffer[self.pos..self.pos + len];
        self.pos = self.pos + len;
        assert(self.remaining() =~= rem.skip(len as int));
        assert(sub@ =~= rem.take(len as int));
        Ok(sub)
    }
}

} // verus!
