//! The PSK binder of a `ClientHello` `pre_shared_key` extension (RFC 8446 section 4.2.11).

use vstd::prelude::*;

use crate::buffer::CryptoBuffer;
use crate::crypto::{ByteArray, TlsHash};
use crate::error::TlsError;

verus! {

/// A PSK binder: an HMAC over the partial transcript.
pub struct PskBinder<H: TlsHash> {
    pub verify: H::Output,
}

/// The encoding of a binder: its one-byte length, then its bytes.
pub open spec fn binder_encoding(verify: Seq<u8>, len: nat) -> Seq<u8> {
    seq![(len % 256) as u8] + verify
}

/// Appending an encoded binder to `prefix` keeps `prefix`, then writes one byte
/// holding the binder's length (modulo 256, as a `u8` cast gives) and the binder
/// bytes exactly as given.
pub proof fn lemma_binder_layout(prefix: Seq<u8>, verify: Seq<u8>, len: nat)
    requires
        verify.len() == len,
    ensures
        (prefix + binder_encoding(verify, len)).len() == prefix.len() + 1 + len,
        (prefix + binder_encoding(verify, len)).take(prefix.len() as int) == prefix,
        (prefix + binder_encoding(verify, len))[prefix.len() as int] as int == len % 256,
        (prefix + binder_encoding(verify, len)).skip(prefix.len() + 1int) == verify,
{
    let m = prefix + binder_encoding(verify, len);
    assert(m.take(prefix.len() as int) =~= prefix);
    assert(m.skip(prefix.len() + 1int) =~= verify);
}

impl<H: TlsHash> PskBinder<H> {
    /// Append the binder, prefixed with its length, to `buf`.
    ///
    /// Fails when it does not fit; the length byte stays written when only the
    /// binder itself does not fit.
    pub fn encode(&self, buf: &mut CryptoBuffer) -> (r: Result<(), TlsError>)
        ensures
            final(buf).spec_capacity() == old(buf).spec_capacity(),
            r is Ok <==> old(buf)@.len() + 1 + H::Output::LEN <= old(buf).spec_capacity(),
            r is Ok ==> final(buf)@ == old(buf)@ + binder_encoding(self.verify.bytes(), H::Output::LEN as nat),
            r is Ok ==> {
                &&& final(buf)@.len() == old(buf)@.len() + 1 + H::Output::LEN
                &&& final(buf)@.take(old(buf)@.len() as int) == old(buf)@
                &&& final(buf)@[old(buf)@.len() as int] as int == H::Output::LEN % 256
                &&& final(buf)@.skip(old(buf)@.len() + 1int) == self.verify.bytes()
            },
            r is Err ==> r == Err::<(), TlsError>(TlsError::EncodeError),
            r is Err && old(buf)@.len() < old(buf).spec_capacity() ==> final(buf)@ == old(buf)@.push(
                (H::Output::LEN % 256) as u8,
            ),
            r is Err && old(buf)@.len() >= old(buf).spec_capacity() ==> final(buf)@ == old(buf)@,
    {
        proof {
            H::Output::lemma_len(self.verify);
        }
        let len_byte = (H::Output::LEN % 256) as u8;
        match buf.push(len_byte) {
            Ok(()) => {},
            Err(_) => return Err(TlsError::EncodeError),
        }
        match buf.extend_from_slice(self.verify.as_slice()) {
            Ok(()) => {},
            Err(_) => return Err(TlsError::EncodeError),
        }
        assert(final(buf)@ =~= old(buf)@ + binder_encoding(self.verify.bytes(), H::Output::LEN as nat));
        proof {
            lemma_binder_layout(old(buf)@, self.verify.bytes(), H::Output::LEN as nat);
        }
        Ok(())
    }

    /// The length of a binder, in bytes.
    pub fn len() -> (r: usize)
        ensures
            r == H::Output::LEN,
    {
        H::Output::LEN
    }
}

} // verus!
