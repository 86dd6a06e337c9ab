//! Ephemeral ECDH over P-256, for the `key_share` of a TLS 1.3 handshake.

use vstd::prelude::*;

use crate::signing::{p256_public_key_valid, p256_scalar_valid};

verus! {

/// The x-coordinate of `secret` times the point that the uncompressed SEC1
/// encoding `peer` decodes to, or `None` when `peer` does not decode.
pub uninterp spec fn p256_ecdh(secret: Seq<u8>, peer: Seq<u8>) -> Option<[u8; 32]>;

/// `p256::SecretKey::from_bytes`: accepts exactly the non-zero scalars below the
/// group order.
#[verifier::external_body]
fn p256_ecdh_secret_accepted(secret: &[u8; 32]) -> (r: bool)
    ensures
        r == p256_scalar_valid(secret@),
{
    p256::SecretKey::from_bytes(secret.into()).is_ok()
}

/// `p256::PublicKey::from_sec1_bytes` of `peer`, then `p256::ecdh::diffie_hellman`
/// with the scalar `secret`: the raw shared secret bytes. The result is `None`
/// exactly when `peer` does not decode (`ecdsa::VerifyingKey::from_sec1_bytes`
/// is that same decoding); a decoded public key is never the identity, so the
/// key agreement itself cannot fail.
#[verifier::external_body]
fn p256_diffie_hellman(secret: &[u8; 32], peer: &[u8]) -> (r: Option<[u8; 32]>)
    requires
        p256_scalar_valid(secret@),
    ensures
        r == p256_ecdh(secret@, peer@),
        r is Some <==> p256_public_key_valid(peer@),
{
    match (p256::SecretKey::from_bytes(secret.into()), p256::PublicKey::from_sec1_bytes(peer)) {
        (Ok(sk), Ok(pk)) => {
            let shared = p256::ecdh::diffie_hellman(sk.to_nonzero_scalar(), pk.as_affine());
            Some((*shared.raw_secret_bytes()).into())
        },
        _ => None,
    }
}

/// A P-256 secret key for ECDH: a non-zero scalar below the group order.
pub struct P256SecretKey {
    secret: [u8; 32],
}

impl P256SecretKey {
    #[verifier::type_invariant]
    closed spec fn inv(self) -> bool {
        p256_scalar_valid(self.secret@)
    }

    /// The secret scalar, big-endian.
    pub closed spec fn secret(&self) -> Seq<u8> {
        self.secret@
    }

    /// The key with the big-endian scalar `bytes`, or `None` when it is zero or
    /// not below the group order.
    pub fn from_bytes(bytes: &[u8; 32]) -> (r: Option<Self>)
        ensures
            r is Some <==> p256_scalar_valid(bytes@),
            r matches Some(k) ==> k.secret() == bytes@,
    {
        if p256_ecdh_secret_accepted(bytes) {
            Some(P256SecretKey { secret: *bytes })
        } else {
            None
        }
    }

    /// The shared secret with the peer whose public key is the uncompressed SEC1
    /// encoding `peer`, or `None` when `peer` is not 65 bytes or does not decode.
    pub fn diffie_hellman(&self, peer: &[u8]) -> (r: Option<[u8; 32]>)
        ensures
            peer@.len() != 65 ==> r is None,
            peer@.len() == 65 ==> r == p256_ecdh(self.secret(), peer@),
            peer@.len() == 65 ==> (r is Some <==> p256_public_key_valid(peer@)),
    {
        proof { use_type_invariant(self); }
        if peer.len() != 65 {
            return None;
        }
        p256_diffie_hellman(&self.secret, peer)
    }
}

} // verus!
