//! The content signed in a `CertificateVerify` message (RFC 8446 section 4.4.3).

use vstd::prelude::*;

use crate::byte_vec::ByteVec;
use crate::error::TlsError;

verus! {

/// Size of the largest `CertificateVerify` signed content: 64 bytes of padding,
/// the 34-byte context string and a SHA-384 transcript hash.
pub const CERTIFICATE_VERIFY_MESSAGE_LEN: usize = 64 + 34 + 48;

/// The signed content: 64 spaces, the context string, then the transcript hash.
pub open spec fn certificate_verify_content(context: Seq<u8>, transcript_hash: Seq<u8>) -> Seq<u8> {
    Seq::new(64, |i: int| 0x20u8) + context + transcript_hash
}

/// Build the content signed in a `CertificateVerify` message.
pub fn certificate_verify_message(context: &[u8], transcript_hash: &[u8]) -> (r: Result<ByteVec<CERTIFICATE_VERIFY_MESSAGE_LEN>, TlsError>)
    ensures
        r is Ok <==> 64 + context@.len() + transcript_hash@.len() <= CERTIFICATE_VERIFY_MESSAGE_LEN,
        r matches Ok(m) ==> m@ == certificate_verify_content(context@, transcript_hash@),
        r matches Ok(m) ==> {
            &&& m@.len() == 64 + context@.len() + transcript_hash@.len()
            &&& forall|i: int| 0 <= i < 64 ==> #[trigger] m@[i] == 0x20u8
            &&& m@.subrange(64, 64 + context@.len() as int) == context@
            &&& m@.subrange(64 + context@.len() as int, m@.len() as int) == transcript_hash@
        },
        r is Err ==> r == Err::<ByteVec<CERTIFICATE_VERIFY_MESSAGE_LEN>, TlsError>(TlsError::EncodeError),
{
    let mut msg: ByteVec<CERTIFICATE_VERIFY_MESSAGE_LEN> = ByteVec::new();
    match msg.resize(64, 0x20) {
        Ok(()) => {},
        Err(_) => return Err(TlsError::EncodeError),
    }
    assert(msg@ =~= Seq::new(64, |i: int| 0x20u8));
    match msg.extend_from_slice(context) {
        Ok(()) => {},
        Err(_) => return Err(TlsError::EncodeError),
    }
    match msg.extend_from_slice(transcript_hash) {
        Ok(()) => {},
        Err(_) => return Err(TlsError::EncodeError),
    }
    proof {
        lemma_certificate_verify_layout(context@, transcript_hash@);
    }
    Ok(msg)
}

/// The signed content is 64 spaces, then the context string exactly as given,
/// then the transcript hash exactly as given, and nothing else.
pub proof fn lemma_certificate_verify_layout(context: Seq<u8>, transcript_hash: Seq<u8>)
    ensures
        certificate_verify_content(context, transcript_hash).len() == 64 + context.len() + transcript_hash.len(),
        forall|i: int| 0 <= i < 64 ==> #[trigger] certificate_verify_content(context, transcript_hash)[i] == 0x20u8,
        certificate_verify_content(context, transcript_hash).subrange(64, 64 + context.len() as int) == context,
        certificate_verify_content(context, transcript_hash).subrange(
            64 + context.len() as int,
            64 + context.len() + transcript_hash.len() as int,
        ) == transcript_hash,
{
    let m = certificate_verify_content(context, transcript_hash);
    assert(m.subrange(64, 64 + context.len() as int) =~= context);
    assert(m.subrange(64 + context.len() as int, 64 + context.len() + transcript_hash.len() as int) =~= transcript_hash);
}

/// A context string of at most 34 bytes and a transcript hash of at most 48
/// bytes (SHA-384) always fit.
pub proof fn lemma_certificate_verify_fits(context: Seq<u8>, transcript_hash: Seq<u8>)
    requires
        context.len() <= 34,
        transcript_hash.len() <= 48,
    ensures
        64 + context.len() + transcript_hash.len() <= CERTIFICATE_VERIFY_MESSAGE_LEN,
{
}

} // verus!
