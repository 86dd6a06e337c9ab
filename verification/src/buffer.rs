//! The output buffer handshake messages are encoded into.

use vstd::prelude::*;

use crate::byte_vec::CapacityError;

verus! {

/// A write buffer of fixed capacity: appends that do not fit fail and leave it
/// as it was.
pub struct CryptoBuffer {
    data: Vec<u8>,
    capacity: usize,
}

impl View for CryptoBuffer {
    type V = Seq<u8>;

    closed spec fn view(&self) -> Seq<u8> {
        self.data@
    }
}

impl CryptoBuffer {
    #[verifier::type_invariant]
    closed spec fn inv(self) -> bool {
        self.data@.len() <= self.capacity
    }

    /// The most bytes the buffer can hold.
    pub closed spec fn spec_capacity(&self) -> nat {
        self.capacity as nat
    }

    /// An empty buffer that holds at most `capacity` bytes.
    pub fn with_capacity(capacity: usize) -> (r: Self)
        ensures
            r@ == Seq::<u8>::empty(),
            r.spec_capacity() == capacity,
    {
        CryptoBuffer { data: Vec::new(), capacity }
    }

    /// The most bytes the buffer can hold.
    pub fn capacity(&self) -> (r: usize)
        ensures
            r == self.spec_capacity(),
    {
        self.capacity
    }

    /// The number of bytes written.
    pub fn len(&self) -> (r: usize)
        ensures
            r == self@.len(),
            r <= self.spec_capacity(),
    {
        proof { use_type_invariant(self); }
        self.data.len()
    }

    /// The bytes written.
    pub fn as_slice(&self) -> (r: &[u8])
        ensures
            r@ == self@,
    {
        self.data.as_slice()
    }

    /// Append `b`.
    pub fn push(&mut self, b: u8) -> (r: Result<(), CapacityError>)
        ensures
            final(self).spec_capacity() == old(self).spec_capacity(),
            r is Ok <==> old(self)@.len() < old(self).spec_capacity(),
            r is Ok ==> final(self)@ == old(self)@.push(b),
            r is Err ==> final(self)@ == old(self)@,
    {
        proof { use_type_invariant(&*self); }
        if self.data.len() < self.capacity {
            let mut d = Vec::new();
            std::mem::swap(&mut d, &mut self.data);
            d.push(b);
            self.data = d;
            Ok(())
        } else {
            Err(CapacityError)
        }
    }

    /// Append `other`.
    pub fn extend_from_slice(&mut self, other: &[u8]) -> (r: Result<(), CapacityError>)
        ensures
            final(self).spec_capacity() == old(self).spec_capacity(),
            r is Ok <==> old(self)@.len() + other@.len() <= old(self).spec_capacity(),
            r is Ok ==> final(self)@ == old(self)@ + other@,
            r is Err ==> final(self)@ == old(self)@,
    {
        proof { use_type_invariant(&*self); }
        if other.len() > self.capacity - self.data.len() {
            return Err(CapacityError);
        }
        let mut d = Vec::new();
        std::mem::swap(&mut d, &mut self.data);
        let ghost start = d@;
        let mut i: usize = 0;
        while i < other.len()
            invariant
                d@.len() + other@.len() - i <= self.capacity,
                i <= other@.len(),
                d@ == start + other@.take(i as int),
            decreases other@.len() - i,
        {
            d.push(other[i]);
            i = i + 1;
            assert(d@ =~= start + other@.take(i as int));
        }
        assert(other@.take(other@.len() as int) =~= other@);
        self.data = d;
        Ok(())
    }
}

} // verus!
