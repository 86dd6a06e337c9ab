//! The `Finished` handshake message (RFC 8446 section 4.4.4).

use vstd::prelude::*;

use crate::buffer::CryptoBuffer;
use crate::crypto::{ByteArray, TlsHash};
use crate::error::TlsError;
use crate::parse_buffer::ParseBuffer;

verus! {

/// A `Finished` message: the verify data, and the transcript hash it was
/// checked against once that is known.
pub struct Finished<H: TlsHash> {
    pub verify: H::Output,
    pub hash: Option<H::Output>,
}

impl<H: TlsHash> Finished<H> {
    /// Read the verify data: the next `H::Output::LEN` bytes of `buf`.
    pub fn parse(buf: &mut ParseBuffer, _len: u32) -> (r: Result<Self, TlsError>)
        ensures
            r is Ok <==> H::Output::LEN <= old(buf).remaining().len(),
            r matches Ok(f) ==> f.verify.bytes() == old(buf).remaining().take(H::Output::LEN as int)
                && f.hash is None
                && final(buf).remaining() == old(buf).remaining().skip(H::Output::LEN as int),
            r is Err ==> r == Err::<Self, TlsError>(TlsError::ParseError(crate::error::ParseError::InsufficientBytes))
                && final(buf).remaining() == old(buf).remaining(),
    {
        let mut verify = H::Output::zeroed();
        proof {
            H::Output::lemma_len(verify);
        }
        let res = buf.fill(verify.as_mut_slice());
        match res {
            Ok(()) => Ok(Self { verify, hash: None }),
            Err(e) => Err(TlsError::ParseError(e)),
        }
    }

    /// Append the verify data to `buf`.
    pub fn encode(&self, buf: &mut CryptoBuffer) -> (r: Result<(), TlsError>)
        ensures
            final(buf).spec_capacity() == old(buf).spec_capacity(),
            r is Ok <==> old(buf)@.len() + H::Output::LEN <= old(buf).spec_capacity(),
            r is Ok ==> final(buf)@ == old(buf)@ + self.verify.bytes(),
            r is Err ==> r == Err::<(), TlsError>(TlsError::EncodeError) && final(buf)@ == old(buf)@,
    {
        proof {
            H::Output::lemma_len(self.verify);
        }
        match buf.extend_from_slice(self.verify.as_slice()) {
            Ok(()) => Ok(()),
            Err(_) => Err(TlsError::EncodeError),
        }
    }
}

/// Reading a `Finished` message back from what [`Finished::encode`] appended to
/// `prefix` gives the verify data that was encoded.
pub proof fn lemma_finished_roundtrip<H: TlsHash>(prefix: Seq<u8>, verify: H::Output)
    ensures
        (prefix + verify.bytes()).skip(prefix.len() as int).len() >= H::Output::LEN,
        (prefix + verify.bytes()).skip(prefix.len() as int).take(H::Output::LEN as int) == verify.bytes(),
{
    H::Output::lemma_len(verify);
    assert((prefix + verify.bytes()).skip(prefix.len() as int) =~= verify.bytes());
    assert(verify.bytes().take(H::Output::LEN as int) =~= verify.bytes());
}

} // verus!
