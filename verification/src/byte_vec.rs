//! A byte vector with a fixed capacity, for the buffers the handshake fills:
//! every operation that would take it past its capacity fails and leaves it as
//! it was.

use vstd::prelude::*;

verus! {

/// The operation would take the vector past its capacity.
#[derive(Debug, Clone, Copy, PartialEq, Eq, Structural)]
pub struct CapacityError;

/// At most `N` bytes.
pub struct ByteVec<const N: usize> {
    data: Vec<u8>,
}

impl<const N: usize> View for ByteVec<N> {
    type V = Seq<u8>;

    closed spec fn view(&self) -> Seq<u8> {
        self.data@
    }
}

impl<const N: usize> ByteVec<N> {
    /// The vector never holds more than `N` bytes.
    #[verifier::type_invariant]
    closed spec fn inv(self) -> bool {
        self.data@.len() <= N
    }

    /// The capacity.
    pub open spec fn capacity() -> nat {
        N as nat
    }

    /// An empty vector.
    pub fn new() -> (r: Self)
        ensures
            r@ == Seq::<u8>::empty(),
    {
        ByteVec { data: Vec::new() }
    }

    /// The number of bytes held.
    pub fn len(&self) -> (r: usize)
        ensures
            r == self@.len(),
            r <= N,
    {
        proof { use_type_invariant(self); }
        self.data.len()
    }

    /// The bytes held.
    pub fn as_slice(&self) -> (r: &[u8])
        ensures
            r@ == self@,
    {
        self.data.as_slice()
    }

    /// Remove every byte.
    pub fn clear(&mut self)
        ensures
            final(self)@ == Seq::<u8>::empty(),
    {
        self.data = Vec::new();
    }

    /// Append `b`, or give it back when the vector is full.
    pub fn push(&mut self, b: u8) -> (r: Result<(), u8>)
        ensures
            r is Ok <==> old(self)@.len() < N,
            r is Ok ==> final(self)@ == old(self)@.push(b),
            r is Err ==> r == Err::<(), u8>(b) && final(self)@ == old(self)@,
    {
        proof { use_type_invariant(&*self); }
        if self.data.len() < N {
            let mut d = Vec::new();
            std::mem::swap(&mut d, &mut self.data);
            d.push(b);
            self.data = d;
            Ok(())
        } else {
            Err(b)
        }
    }

    /// Append `other`, or fail when it does not fit.
    pub fn extend_from_slice(&mut self, other: &[u8]) -> (r: Result<(), CapacityError>)
        ensures
            r is Ok <==> old(self)@.len() + other@.len() <= N,
            r is Ok ==> final(self)@ == old(self)@ + other@,
            r is Err ==> final(self)@ == old(self)@,
    {
        proof { use_type_invariant(&*self); }
        if other.len() > N - self.data.len() {
            return Err(CapacityError);
        }
        let mut d = Vec::new();
        std::mem::swap(&mut d, &mut self.data);
        let ghost start = d@;
        let mut i: usize = 0;
        while i < other.len()
            invariant
                d@.len() + other@.len() - i <= N,
                i <= other@.len(),
                d@ == start + other@.take(i as int),
            decreases other@.len() - i,
        {
            d.push(other[i]);
            i = i + 1;
            assert(d@ =~= start + other@.take(i as int));
        }
        assert(other@.take(other@.len() as int) =~= other@);
        self.data = d;
        Ok(())
    }

    /// Grow to `new_len` bytes by appending copies of `value`, or shrink to
    /// `new_len` bytes; fail when `new_len` exceeds the capacity.
    pub fn resize(&mut self, new_len: usize, value: u8) -> (r: Result<(), CapacityError>)
        ensures
            r is Ok <==> new_len <= N,
            r is Ok && new_len <= old(self)@.len() ==> final(self)@ == old(self)@.take(new_len as int),
            r is Ok && new_len > old(self)@.len() ==> final(self)@
                == old(self)@ + Seq::new((new_len - old(self)@.len()) as nat, |i: int| value),
            r is Err ==> final(self)@ == old(self)@,
    {
        proof { use_type_invariant(&*self); }
        if new_len > N {
            return Err(CapacityError);
        }
        let mut d = Vec::new();
        std::mem::swap(&mut d, &mut self.data);
        if new_len <= d.len() {
            d.truncate(new_len);
        } else {
            let ghost start = d@;
            while d.len() < new_len
                invariant
                    new_len <= N,
                    start.len() <= d@.len() <= new_len,
                    d@ == start + Seq::new((d@.len() - start.len()) as nat, |i: int| value),
                decreases new_len - d@.len(),
            {
                d.push(value);
                assert(d@ =~= start + Seq::new((d@.len() - start.len()) as nat, |i: int| value));
            }
        }
        self.data = d;
        Ok(())
    }
}

} // verus!
