//! Signing and verifying the content of `CertificateVerify` messages with
//! ECDSA over P-256 and P-384 (signatures DER-encoded) and with Ed25519.
//!
//! Keys are held as their plain bytes; the curve arithmetic is done by the
//! `p256`, `p384` and `ed25519-dalek` crates through the small trusted
//! functions below.

use vstd::prelude::*;

use crate::byte_vec::ByteVec;
use crate::crypto::TlsHash;
use crate::der::{
    be_value, ecdsa_sig_der, ecdsa_signature_from_der, ecdsa_signature_to_der, left_pad,
    parse_ecdsa_sig, lemma_ecdsa_sig_fixed_roundtrip, ECDSA_SIG_DER_MAX,
};
use crate::error::TlsError;
use crate::rustcrypto::{sha256, sha384};

use ed25519_dalek::{Signer, Verifier};
use p256::ecdsa::signature::hazmat::{PrehashSigner, PrehashVerifier};

verus! {

// ---------------------------------------------------------------------------
// Scalars
// ---------------------------------------------------------------------------

/// The order of the P-256 group.
pub open spec fn p256_order() -> nat {
    0xffffffff00000000ffffffffffffffffbce6faada7179e84f3b9cac2fc632551nat
}

/// The order of the P-384 group.
pub open spec fn p384_order() -> nat {
    0xffffffffffffffffffffffffffffffffffffffffffffffffc7634d81f4372ddf581a0db248b0a77aecec196accc52973nat
}

/// Whether `s` is a big-endian non-zero scalar of P-256.
pub open spec fn p256_scalar_valid(s: Seq<u8>) -> bool {
    s.len() == 32 && 1 <= be_value(s) < p256_order()
}

/// Whether `s` is a big-endian non-zero scalar of P-384.
pub open spec fn p384_scalar_valid(s: Seq<u8>) -> bool {
    s.len() == 48 && 1 <= be_value(s) < p384_order()
}

// ---------------------------------------------------------------------------
// P-256
// ---------------------------------------------------------------------------

/// Whether `sec1` encodes a point of P-256 that `p256::PublicKey::from_sec1_bytes`
/// (and so `ecdsa::VerifyingKey::from_sec1_bytes`) accepts.
pub uninterp spec fn p256_public_key_valid(sec1: Seq<u8>) -> bool;

/// The uncompressed SEC1 encoding of the public key of the P-256 secret scalar `secret`.
pub uninterp spec fn p256_public_key(secret: Seq<u8>) -> [u8; 65];

/// Whether `(r, s)` is an ECDSA/P-256 signature of the message digest `prehash`
/// under the public key `sec1`.
pub uninterp spec fn p256_ecdsa_verify(sec1: Seq<u8>, prehash: Seq<u8>, r: Seq<u8>, s: Seq<u8>) -> bool;

/// The deterministic (RFC 6979) ECDSA/P-256 signature `(r, s)` of the message
/// digest `prehash` under the secret scalar `secret`, or `None` when signing fails.
pub uninterp spec fn p256_ecdsa_sign(secret: Seq<u8>, prehash: Seq<u8>) -> Option<([u8; 32], [u8; 32])>;

/// `p256::ecdsa::SigningKey::from_bytes`: accepts exactly the non-zero scalars
/// below the group order.
#[verifier::external_body]
fn p256_secret_key_accepted(secret: &[u8; 32]) -> (r: bool)
    ensures
        r == p256_scalar_valid(secret@),
{
    p256::ecdsa::SigningKey::from_bytes(secret.into()).is_ok()
}

/// `p256::ecdsa::VerifyingKey::from_sec1_bytes`: whether `sec1` is accepted.
#[verifier::external_body]
fn p256_public_key_accepted(sec1: &[u8; 65]) -> (r: bool)
    ensures
        r == p256_public_key_valid(sec1@),
{
    p256::ecdsa::VerifyingKey::from_sec1_bytes(sec1).is_ok()
}

/// `p256::ecdsa::Signature::from_scalars`: accepts exactly the pairs of non-zero
/// scalars below the group order.
#[verifier::external_body]
fn p256_scalars_accepted(r: &[u8; 32], s: &[u8; 32]) -> (res: bool)
    ensures
        res == (p256_scalar_valid(r@) && p256_scalar_valid(s@)),
{
    p256::ecdsa::Signature::from_scalars(*r, *s).is_ok()
}

/// `<p256::ecdsa::VerifyingKey as PrehashVerifier>::verify_prehash` of the
/// signature `(r, s)`. A signature made with a secret key verifies under that
/// key's public key.
#[verifier::external_body]
fn p256_verify_prehash(sec1: &[u8; 65], prehash: &[u8], r: &[u8; 32], s: &[u8; 32]) -> (res: bool)
    requires
        p256_public_key_valid(sec1@),
        p256_scalar_valid(r@),
        p256_scalar_valid(s@),
    ensures
        res == p256_ecdsa_verify(sec1@, prehash@, r@, s@),
        forall|secret: Seq<u8>|
            #![trigger p256_ecdsa_sign(secret, prehash@)]
            p256_scalar_valid(secret) && sec1 == p256_public_key(secret)
                && p256_ecdsa_sign(secret, prehash@) == Some((*r, *s)) ==> res,
{
    match (p256::ecdsa::VerifyingKey::from_sec1_bytes(sec1), p256::ecdsa::Signature::from_scalars(*r, *s)) {
        (Ok(key), Ok(sig)) => key.verify_prehash(prehash, &sig).is_ok(),
        _ => false,
    }
}

/// `<p256::ecdsa::SigningKey as PrehashSigner>::sign_prehash`, split into its
/// scalars. The scalars of a signature are non-zero and below the group order.
#[verifier::external_body]
fn p256_sign_prehash(secret: &[u8; 32], prehash: &[u8]) -> (res: Option<([u8; 32], [u8; 32])>)
    requires
        p256_scalar_valid(secret@),
    ensures
        res == p256_ecdsa_sign(secret@, prehash@),
        res matches Some((r, s)) ==> p256_scalar_valid(r@) && p256_scalar_valid(s@),
{
    match p256::ecdsa::SigningKey::from_bytes(secret.into()) {
        Ok(key) => match PrehashSigner::<p256::ecdsa::Signature>::sign_prehash(&key, prehash) {
            Ok(sig) => {
                let (r, s) = sig.split_bytes();
                Some((r.into(), s.into()))
            },
            Err(_) => None,
        },
        Err(_) => None,
    }
}

/// `p256::ecdsa::SigningKey::verifying_key`, encoded uncompressed; a public key
/// decodes again.
#[verifier::external_body]
fn p256_public_key_of(secret: &[u8; 32]) -> (res: [u8; 65])
    requires
        p256_scalar_valid(secret@),
    ensures
        res == p256_public_key(secret@),
        p256_public_key_valid(res@),
{
    match p256::ecdsa::SigningKey::from_bytes(secret.into()) {
        Ok(key) => {
            let point = key.verifying_key().to_sec1_point(false);
            let mut out = [0u8; 65];
            out.copy_from_slice(point.as_bytes());
            out
        },
        Err(_) => [0u8; 65],
    }
}

/// An ECDSA/P-256 signing key: a non-zero scalar below the group order.
pub struct P256SigningKey {
    secret: [u8; 32],
}

impl P256SigningKey {
    #[verifier::type_invariant]
    closed spec fn inv(self) -> bool {
        p256_scalar_valid(self.secret@)
    }

    /// The secret scalar, big-endian.
    pub closed spec fn secret(&self) -> Seq<u8> {
        self.secret@
    }

    /// Every key holds a valid scalar.
    pub fn secret_is_valid(&self) -> (r: bool)
        ensures
            r,
            p256_scalar_valid(self.secret()),
    {
        proof { use_type_invariant(self); }
        true
    }

    /// The key with the big-endian scalar `bytes`, or `None` when it is zero or
    /// not below the group order.
    pub fn from_bytes(bytes: &[u8; 32]) -> (r: Option<Self>)
        ensures
            r is Some <==> p256_scalar_valid(bytes@),
            r matches Some(k) ==> k.secret() == bytes@,
    {
        if p256_secret_key_accepted(bytes) {
            Some(P256SigningKey { secret: *bytes })
        } else {
            None
        }
    }

    /// The uncompressed SEC1 encoding of the public key.
    pub fn verifying_key(&self) -> (r: [u8; 65])
        ensures
            r == p256_public_key(self.secret()),
            p256_public_key_valid(r@),
    {
        proof { use_type_invariant(self); }
        p256_public_key_of(&self.secret)
    }
}

/// What verifying the DER-encoded ECDSA/P-256 signature `signature` of
/// `message` under the uncompressed SEC1 public key `public_key` gives.
pub open spec fn p256_verify_outcome(public_key: Seq<u8>, message: Seq<u8>, signature: Seq<u8>) -> Result<(), TlsError> {
    if public_key.len() != 65 || !p256_public_key_valid(public_key) {
        Err(TlsError::DecodeError)
    } else {
        match parse_ecdsa_sig(signature) {
            Some((a, b)) => if a.len() <= 32 && b.len() <= 32 && p256_scalar_valid(left_pad(a, 32))
                && p256_scalar_valid(left_pad(b, 32)) {
                if p256_ecdsa_verify(public_key, sha256(message)@, left_pad(a, 32), left_pad(b, 32)) {
                    Ok(())
                } else {
                    Err(TlsError::InvalidSignature)
                }
            } else {
                Err(TlsError::DecodeError)
            },
            None => Err(TlsError::DecodeError),
        }
    }
}

/// Verify a DER-encoded ECDSA/P-256 signature over `message`, hashed with SHA-256.
///
/// `public_key` is the uncompressed SEC1 encoding of the public key. A signature
/// that [`sign_ecdsa_p256`] made with the matching signing key verifies.
pub fn verify_ecdsa_p256(public_key: &[u8], message: &[u8], signature: &[u8]) -> (r: Result<(), TlsError>)
    ensures
        r == p256_verify_outcome(public_key@, message@, signature@),
        forall|secret: Seq<u8>|
            #![trigger p256_ecdsa_sign(secret, sha256(message@)@)]
            p256_scalar_valid(secret) && public_key@ == p256_public_key(secret)@
                && p256_public_key_valid(public_key@)
                && (p256_ecdsa_sign(secret, sha256(message@)@) matches Some((a, b))
                    && p256_scalar_valid(a@) && p256_scalar_valid(b@)
                    && signature@ == ecdsa_sig_der(a@, b@)) ==> r is Ok,
{
    if public_key.len() != 65 {
        return Err(TlsError::DecodeError);
    }
    let mut pk = [0u8; 65];
    let mut i: usize = 0;
    while i < 65
        invariant
            public_key@.len() == 65,
            i <= 65,
            forall|j: int| 0 <= j < i ==> pk@[j] == public_key@[j],
        decreases 65 - i,
    {
        pk[i] = public_key[i];
        i = i + 1;
    }
    assert(pk@ =~= public_key@);
    if !p256_public_key_accepted(&pk) {
        return Err(TlsError::DecodeError);
    }
    let (r, s) = match ecdsa_signature_from_der::<32>(signature) {
        Ok(x) => x,
        Err(e) => {
            proof {
                assert forall|secret: Seq<u8>|
                    #![trigger p256_ecdsa_sign(secret, sha256(message@)@)]
                    p256_ecdsa_sign(secret, sha256(message@)@) matches Some((a, b))
                        && signature@ == ecdsa_sig_der(a@, b@) implies false by {
                    let (a, b) = p256_ecdsa_sign(secret, sha256(message@)@).unwrap();
                    lemma_fixed_sig_fits(a@, b@, 32);
                    lemma_ecdsa_sig_fixed_roundtrip(a@, b@, 32);
                }
            }
            return Err(e);
        },
    };
    proof {
        assert forall|secret: Seq<u8>|
            #![trigger p256_ecdsa_sign(secret, sha256(message@)@)]
            (p256_ecdsa_sign(secret, sha256(message@)@) matches Some((a, b))
                && signature@ == ecdsa_sig_der(a@, b@)) implies p256_ecdsa_sign(secret, sha256(message@)@) == Some((r, s)) by {
            let (a, b) = p256_ecdsa_sign(secret, sha256(message@)@).unwrap();
            lemma_fixed_sig_fits(a@, b@, 32);
            lemma_ecdsa_sig_fixed_roundtrip(a@, b@, 32);
            assert(r =~= a);
            assert(s =~= b);
        }
    }
    if !p256_scalars_accepted(&r, &s) {
        return Err(TlsError::DecodeError);
    }
    let digest = <sha2::Sha256 as TlsHash>::digest(message);
    let prehash = digest.as_slice();
    assert(prehash@ == sha256(message@)@);
    let ok = p256_verify_prehash(&pk, prehash, &r, &s);
    proof {
        assert forall|secret: Seq<u8>|
            #![trigger p256_ecdsa_sign(secret, sha256(message@)@)]
            p256_scalar_valid(secret) && public_key@ == p256_public_key(secret)@
                && p256_public_key_valid(public_key@)
                && (p256_ecdsa_sign(secret, sha256(message@)@) matches Some((a, b))
                    && p256_scalar_valid(a@) && p256_scalar_valid(b@)
                    && signature@ == ecdsa_sig_der(a@, b@)) implies ok by {
            assert(pk =~= p256_public_key(secret));
        }
    }
    if ok {
        Ok(())
    } else {
        Err(TlsError::InvalidSignature)
    }
}

/// Sign `message` with ECDSA/P-256 over SHA-256, writing the DER-encoded signature to `out`.
pub fn sign_ecdsa_p256<const N: usize>(key: &P256SigningKey, message: &[u8], out: &mut ByteVec<N>) -> (r: Result<(), TlsError>)
    ensures
        p256_ecdsa_sign(key.secret(), sha256(message@)@) is None ==> r == Err::<(), TlsError>(TlsError::CryptoError)
            && final(out)@ == old(out)@,
        p256_ecdsa_sign(key.secret(), sha256(message@)@) matches Some((a, b)) ==> {
            &&& p256_scalar_valid(a@) && p256_scalar_valid(b@)
            &&& ecdsa_sig_der(a@, b@).len() <= ECDSA_SIG_DER_MAX
            &&& (r is Ok <==> ecdsa_sig_der(a@, b@).len() <= N)
            &&& r is Ok ==> final(out)@ == ecdsa_sig_der(a@, b@)
            &&& r is Err ==> r == Err::<(), TlsError>(TlsError::EncodeError) && final(out)@ == Seq::<u8>::empty()
        },
{
    proof { use_type_invariant(key); }
    let digest = <sha2::Sha256 as TlsHash>::digest(message);
    let (r, s) = match p256_sign_prehash(&key.secret, digest.as_slice()) {
        Some(x) => x,
        None => return Err(TlsError::CryptoError),
    };
    proof {
        lemma_fixed_sig_fits(r@, s@, 32);
    }
    ecdsa_signature_to_der(&r, &s, out)
}

/// The encoding of two `n`-byte integers fits in [`ECDSA_SIG_DER_MAX`] bytes
/// for the scalar sizes of P-256 and P-384.
proof fn lemma_fixed_sig_fits(r: Seq<u8>, s: Seq<u8>, n: nat)
    requires
        r.len() == n,
        s.len() == n,
        n <= 48,
    ensures
        ecdsa_sig_der(r, s).len() <= ECDSA_SIG_DER_MAX,
{
    crate::der::lemma_ecdsa_sig_len(r, s);
}

// ---------------------------------------------------------------------------
// P-384
// ---------------------------------------------------------------------------

/// Whether `sec1` encodes a point of P-384 that `VerifyingKey::from_sec1_bytes` accepts.
pub uninterp spec fn p384_public_key_valid(sec1: Seq<u8>) -> bool;

/// The uncompressed SEC1 encoding of the public key of the P-384 secret scalar `secret`.
pub uninterp spec fn p384_public_key(secret: Seq<u8>) -> [u8; 97];

/// Whether `(r, s)` is an ECDSA/P-384 signature of the message digest `prehash`
/// under the public key `sec1`.
pub uninterp spec fn p384_ecdsa_verify(sec1: Seq<u8>, prehash: Seq<u8>, r: Seq<u8>, s: Seq<u8>) -> bool;

/// The deterministic (RFC 6979) ECDSA/P-384 signature `(r, s)` of the message
/// digest `prehash` under the secret scalar `secret`, or `None` when signing fails.
pub uninterp spec fn p384_ecdsa_sign(secret: Seq<u8>, prehash: Seq<u8>) -> Option<([u8; 48], [u8; 48])>;

/// `p384::ecdsa::SigningKey::from_bytes`: accepts exactly the non-zero scalars
/// below the group order.
#[verifier::external_body]
fn p384_secret_key_accepted(secret: &[u8; 48]) -> (r: bool)
    ensures
        r == p384_scalar_valid(secret@),
{
    p384::ecdsa::SigningKey::from_bytes(secret.into()).is_ok()
}

/// `p384::ecdsa::VerifyingKey::from_sec1_bytes`: whether `sec1` is accepted.
#[verifier::external_body]
fn p384_public_key_accepted(sec1: &[u8; 97]) -> (r: bool)
    ensures
        r == p384_public_key_valid(sec1@),
{
    p384::ecdsa::VerifyingKey::from_sec1_bytes(sec1).is_ok()
}

/// `p384::ecdsa::Signature::from_scalars`: accepts exactly the pairs of non-zero
/// scalars below the group order.
#[verifier::external_body]
fn p384_scalars_accepted(r: &[u8; 48], s: &[u8; 48]) -> (res: bool)
    ensures
        res == (p384_scalar_valid(r@) && p384_scalar_valid(s@)),
{
    p384::ecdsa::Signature::from_scalars(*r, *s).is_ok()
}

/// `<p384::ecdsa::VerifyingKey as PrehashVerifier>::verify_prehash` of the
/// signature `(r, s)`. A signature made with a secret key verifies under that
/// key's public key.
#[verifier::external_body]
fn p384_verify_prehash(sec1: &[u8; 97], prehash: &[u8], r: &[u8; 48], s: &[u8; 48]) -> (res: bool)
    requires
        p384_public_key_valid(sec1@),
        p384_scalar_valid(r@),
        p384_scalar_valid(s@),
    ensures
        res == p384_ecdsa_verify(sec1@, prehash@, r@, s@),
        forall|secret: Seq<u8>|
            #![trigger p384_ecdsa_sign(secret, prehash@)]
            p384_scalar_valid(secret) && sec1 == p384_public_key(secret)
                && p384_ecdsa_sign(secret, prehash@) == Some((*r, *s)) ==> res,
{
    match (p384::ecdsa::VerifyingKey::from_sec1_bytes(sec1), p384::ecdsa::Signature::from_scalars(*r, *s)) {
        (Ok(key), Ok(sig)) => key.verify_prehash(prehash, &sig).is_ok(),
        _ => false,
    }
}

/// `<p384::ecdsa::SigningKey as PrehashSigner>::sign_prehash`, split into its
/// scalars. The scalars of a signature are non-zero and below the group order.
#[verifier::external_body]
fn p384_sign_prehash(secret: &[u8; 48], prehash: &[u8]) -> (res: Option<([u8; 48], [u8; 48])>)
    requires
        p384_scalar_valid(secret@),
    ensures
        res == p384_ecdsa_sign(secret@, prehash@),
        res matches Some((r, s)) ==> p384_scalar_valid(r@) && p384_scalar_valid(s@),
{
    match p384::ecdsa::SigningKey::from_bytes(secret.into()) {
        Ok(key) => match PrehashSigner::<p384::ecdsa::Signature>::sign_prehash(&key, prehash) {
            Ok(sig) => {
                let (r, s) = sig.split_bytes();
                Some((r.into(), s.into()))
            },
            Err(_) => None,
        },
        Err(_) => None,
    }
}

/// `p384::ecdsa::SigningKey::verifying_key`, encoded uncompressed; a public key
/// decodes again.
#[verifier::external_body]
fn p384_public_key_of(secret: &[u8; 48]) -> (res: [u8; 97])
    requires
        p384_scalar_valid(secret@),
    ensures
        res == p384_public_key(secret@),
        p384_public_key_valid(res@),
{
    match p384::ecdsa::SigningKey::from_bytes(secret.into()) {
        Ok(key) => {
            let point = key.verifying_key().to_sec1_point(false);
            let mut out = [0u8; 97];
            out.copy_from_slice(point.as_bytes());
            out
        },
        Err(_) => [0u8; 97],
    }
}

/// An ECDSA/P-384 signing key: a non-zero scalar below the group order.
pub struct P384SigningKey {
    secret: [u8; 48],
}

impl P384SigningKey {
    #[verifier::type_invariant]
    closed spec fn inv(self) -> bool {
        p384_scalar_valid(self.secret@)
    }

    /// The secret scalar, big-endian.
    pub closed spec fn secret(&self) -> Seq<u8> {
        self.secret@
    }

    /// Every key holds a valid scalar.
    pub fn secret_is_valid(&self) -> (r: bool)
        ensures
            r,
            p384_scalar_valid(self.secret()),
    {
        proof { use_type_invariant(self); }
        true
    }

    /// The key with the big-endian scalar `bytes`, or `None` when it is zero or
    /// not below the group order.
    pub fn from_bytes(bytes: &[u8; 48]) -> (r: Option<Self>)
        ensures
            r is Some <==> p384_scalar_valid(bytes@),
            r matches Some(k) ==> k.secret() == bytes@,
    {
        if p384_secret_key_accepted(bytes) {
            Some(P384SigningKey { secret: *bytes })
        } else {
            None
        }
    }

    /// The uncompressed SEC1 encoding of the public key.
    pub fn verifying_key(&self) -> (r: [u8; 97])
        ensures
            r == p384_public_key(self.secret()),
            p384_public_key_valid(r@),
    {
        proof { use_type_invariant(self); }
        p384_public_key_of(&self.secret)
    }
}

/// What verifying the DER-encoded ECDSA/P-384 signature `signature` of
/// `message` under the uncompressed SEC1 public key `public_key` gives.
pub open spec fn p384_verify_outcome(public_key: Seq<u8>, message: Seq<u8>, signature: Seq<u8>) -> Result<(), TlsError> {
    if public_key.len() != 97 || !p384_public_key_valid(public_key) {
        Err(TlsError::DecodeError)
    } else {
        match parse_ecdsa_sig(signature) {
            Some((a, b)) => if a.len() <= 48 && b.len() <= 48 && p384_scalar_valid(left_pad(a, 48))
                && p384_scalar_valid(left_pad(b, 48)) {
                if p384_ecdsa_verify(public_key, sha384(message)@, left_pad(a, 48), left_pad(b, 48)) {
                    Ok(())
                } else {
                    Err(TlsError::InvalidSignature)
                }
            } else {
                Err(TlsError::DecodeError)
            },
            None => Err(TlsError::DecodeError),
        }
    }
}

/// Verify a DER-encoded ECDSA/P-384 signature over `message`, hashed with SHA-384.
///
/// `public_key` is the uncompressed SEC1 encoding of the public key. A signature
/// that [`sign_ecdsa_p384`] made with the matching signing key verifies.
pub fn verify_ecdsa_p384(public_key: &[u8], message: &[u8], signature: &[u8]) -> (r: Result<(), TlsError>)
    ensures
        r == p384_verify_outcome(public_key@, message@, signature@),
        forall|secret: Seq<u8>|
            #![trigger p384_ecdsa_sign(secret, sha384(message@)@)]
            p384_scalar_valid(secret) && public_key@ == p384_public_key(secret)@
                && p384_public_key_valid(public_key@)
                && (p384_ecdsa_sign(secret, sha384(message@)@) matches Some((a, b))
                    && p384_scalar_valid(a@) && p384_scalar_valid(b@)
                    && signature@ == ecdsa_sig_der(a@, b@)) ==> r is Ok,
{
    if public_key.len() != 97 {
        return Err(TlsError::DecodeError);
    }
    let mut pk = [0u8; 97];
    let mut i: usize = 0;
    while i < 97
        invariant
            public_key@.len() == 97,
            i <= 97,
            forall|j: int| 0 <= j < i ==> pk@[j] == public_key@[j],
        decreases 97 - i,
    {
        pk[i] = public_key[i];
        i = i + 1;
    }
    assert(pk@ =~= public_key@);
    if !p384_public_key_accepted(&pk) {
        return Err(TlsError::DecodeError);
    }
    let (r, s) = match ecdsa_signature_from_der::<48>(signature) {
        Ok(x) => x,
        Err(e) => {
            proof {
                assert forall|secret: Seq<u8>|
                    #![trigger p384_ecdsa_sign(secret, sha384(message@)@)]
                    p384_ecdsa_sign(secret, sha384(message@)@) matches Some((a, b))
                        && signature@ == ecdsa_sig_der(a@, b@) implies false by {
                    let (a, b) = p384_ecdsa_sign(secret, sha384(message@)@).unwrap();
                    lemma_fixed_sig_fits(a@, b@, 48);
                    lemma_ecdsa_sig_fixed_roundtrip(a@, b@, 48);
                }
            }
            return Err(e);
        },
    };
    proof {
        assert forall|secret: Seq<u8>|
            #![trigger p384_ecdsa_sign(secret, sha384(message@)@)]
            (p384_ecdsa_sign(secret, sha384(message@)@) matches Some((a, b))
                && signature@ == ecdsa_sig_der(a@, b@)) implies p384_ecdsa_sign(secret, sha384(message@)@) == Some((r, s)) by {
            let (a, b) = p384_ecdsa_sign(secret, sha384(message@)@).unwrap();
            lemma_fixed_sig_fits(a@, b@, 48);
            lemma_ecdsa_sig_fixed_roundtrip(a@, b@, 48);
            assert(r =~= a);
            assert(s =~= b);
        }
    }
    if !p384_scalars_accepted(&r, &s) {
        return Err(TlsError::DecodeError);
    }
    let digest = <sha2::Sha384 as TlsHash>::digest(message);
    let prehash = digest.as_slice();
    assert(prehash@ == sha384(message@)@);
    let ok = p384_verify_prehash(&pk, prehash, &r, &s);
    proof {
        assert forall|secret: Seq<u8>|
            #![trigger p384_ecdsa_sign(secret, sha384(message@)@)]
            p384_scalar_valid(secret) && public_key@ == p384_public_key(secret)@
                && p384_public_key_valid(public_key@)
                && (p384_ecdsa_sign(secret, sha384(message@)@) matches Some((a, b))
                    && p384_scalar_valid(a@) && p384_scalar_valid(b@)
                    && signature@ == ecdsa_sig_der(a@, b@)) implies ok by {
            assert(pk =~= p384_public_key(secret));
        }
    }
    if ok {
        Ok(())
    } else {
        Err(TlsError::InvalidSignature)
    }
}

/// Sign `message` with ECDSA/P-384 over SHA-384, writing the DER-encoded signature to `out`.
pub fn sign_ecdsa_p384<const N: usize>(key: &P384SigningKey, message: &[u8], out: &mut ByteVec<N>) -> (r: Result<(), TlsError>)
    ensures
        p384_ecdsa_sign(key.secret(), sha384(message@)@) is None ==> r == Err::<(), TlsError>(TlsError::CryptoError)
            && final(out)@ == old(out)@,
        p384_ecdsa_sign(key.secret(), sha384(message@)@) matches Some((a, b)) ==> {
            &&& p384_scalar_valid(a@) && p384_scalar_valid(b@)
            &&& ecdsa_sig_der(a@, b@).len() <= ECDSA_SIG_DER_MAX
            &&& (r is Ok <==> ecdsa_sig_der(a@, b@).len() <= N)
            &&& r is Ok ==> final(out)@ == ecdsa_sig_der(a@, b@)
            &&& r is Err ==> r == Err::<(), TlsError>(TlsError::EncodeError) && final(out)@ == Seq::<u8>::empty()
        },
{
    proof { use_type_invariant(key); }
    let digest = <sha2::Sha384 as TlsHash>::digest(message);
    let (r, s) = match p384_sign_prehash(&key.secret, digest.as_slice()) {
        Some(x) => x,
        None => return Err(TlsError::CryptoError),
    };
    proof {
        lemma_fixed_sig_fits(r@, s@, 48);
    }
    ecdsa_signature_to_der(&r, &s, out)
}

// ---------------------------------------------------------------------------
// Ed25519
// ---------------------------------------------------------------------------

/// The Ed25519 (RFC 8032) public key of the 32-byte secret key `secret`.
pub uninterp spec fn ed25519_public_key(secret: Seq<u8>) -> [u8; 32];

/// The Ed25519 (RFC 8032) signature `R || S` of `message` under the 32-byte
/// secret key `secret`.
pub uninterp spec fn ed25519_signature(secret: Seq<u8>, message: Seq<u8>) -> [u8; 64];

/// Whether `signature` is an Ed25519 signature of `message` under the public key
/// `public_key` (which must decode to a curve point).
pub uninterp spec fn ed25519_verify(public_key: Seq<u8>, message: Seq<u8>, signature: Seq<u8>) -> bool;

/// `ed25519_dalek::SigningKey::verifying_key`, as bytes.
#[verifier::external_body]
fn ed25519_public_key_of(secret: &[u8; 32]) -> (r: [u8; 32])
    ensures
        r == ed25519_public_key(secret@),
{
    ed25519_dalek::SigningKey::from_bytes(secret).verifying_key().to_bytes()
}

/// `<ed25519_dalek::SigningKey as Signer>::sign`, as bytes.
#[verifier::external_body]
fn ed25519_sign(secret: &[u8; 32], message: &[u8]) -> (r: [u8; 64])
    ensures
        r == ed25519_signature(secret@, message@),
{
    ed25519_dalek::SigningKey::from_bytes(secret).sign(message).to_bytes()
}

/// `<ed25519_dalek::VerifyingKey as Verifier>::verify`, after
/// `VerifyingKey::from_bytes`: a key that does not decode verifies nothing. A
/// signature made with a secret key verifies under that key's public key.
#[verifier::external_body]
fn ed25519_verify_bytes(public_key: &[u8; 32], message: &[u8], signature: &[u8; 64]) -> (r: bool)
    ensures
        r == ed25519_verify(public_key@, message@, signature@),
        forall|secret: Seq<u8>|
            #![trigger ed25519_signature(secret, message@)]
            secret.len() == 32 && *public_key == ed25519_public_key(secret)
                && *signature == ed25519_signature(secret, message@) ==> r,
{
    match ed25519_dalek::VerifyingKey::from_bytes(public_key) {
        Ok(key) => key.verify(message, &ed25519_dalek::Signature::from_bytes(signature)).is_ok(),
        Err(_) => false,
    }
}

/// An Ed25519 signing key: its 32-byte secret.
pub struct Ed25519SigningKey {
    secret: [u8; 32],
}

impl Ed25519SigningKey {
    /// The secret key bytes.
    pub closed spec fn secret(&self) -> Seq<u8> {
        self.secret@
    }

    /// The key with the secret `bytes`.
    pub fn from_bytes(bytes: &[u8; 32]) -> (r: Self)
        ensures
            r.secret() == bytes@,
    {
        Ed25519SigningKey { secret: *bytes }
    }

    /// The 32-byte compressed public key.
    pub fn verifying_key(&self) -> (r: [u8; 32])
        ensures
            r == ed25519_public_key(self.secret()),
    {
        ed25519_public_key_of(&self.secret)
    }
}

/// Copies a slice of a known length into an array.
fn to_array<const N: usize>(bytes: &[u8]) -> (r: [u8; N])
    requires
        bytes@.len() == N,
    ensures
        r@ == bytes@,
{
    let mut out = [0u8; N];
    let mut i: usize = 0;
    while i < N
        invariant
            bytes@.len() == N,
            i <= N,
            out@.len() == N,
            forall|j: int| 0 <= j < i ==> out@[j] == bytes@[j],
        decreases N - i,
    {
        out[i] = bytes[i];
        i = i + 1;
    }
    assert(out@ =~= bytes@);
    out
}

/// Verify an Ed25519 signature over `message`.
///
/// `public_key` is the 32-byte compressed point and `signature` the 64-byte
/// `R || S`. A signature that [`sign_ed25519`] made with the matching signing
/// key verifies.
pub fn verify_ed25519(public_key: &[u8], message: &[u8], signature: &[u8]) -> (r: Result<(), TlsError>)
    ensures
        public_key@.len() != 32 || signature@.len() != 64 ==> r == Err::<(), TlsError>(TlsError::DecodeError),
        public_key@.len() == 32 && signature@.len() == 64 ==> r == if ed25519_verify(public_key@, message@, signature@) {
            Ok::<(), TlsError>(())
        } else {
            Err(TlsError::InvalidSignature)
        },
        forall|secret: Seq<u8>|
            #![trigger ed25519_signature(secret, message@)]
            secret.len() == 32 && public_key@ == ed25519_public_key(secret)@
                && signature@ == ed25519_signature(secret, message@)@ ==> r is Ok,
{
    if public_key.len() != 32 || signature.len() != 64 {
        return Err(TlsError::DecodeError);
    }
    let pk = to_array::<32>(public_key);
    let sig = to_array::<64>(signature);
    let ok = ed25519_verify_bytes(&pk, message, &sig);
    proof {
        assert forall|secret: Seq<u8>|
            #![trigger ed25519_signature(secret, message@)]
            secret.len() == 32 && public_key@ == ed25519_public_key(secret)@
                && signature@ == ed25519_signature(secret, message@)@ implies ok by {
            assert(pk =~= ed25519_public_key(secret));
            assert(sig =~= ed25519_signature(secret, message@));
        }
    }
    if ok {
        Ok(())
    } else {
        Err(TlsError::InvalidSignature)
    }
}

/// Sign `message` with Ed25519, writing the 64-byte signature to `out`.
pub fn sign_ed25519<const N: usize>(key: &Ed25519SigningKey, message: &[u8], out: &mut ByteVec<N>) -> (r: Result<(), TlsError>)
    ensures
        r is Ok <==> 64 <= N,
        r is Ok ==> final(out)@ == ed25519_signature(key.secret(), message@)@,
        r is Err ==> r == Err::<(), TlsError>(TlsError::EncodeError) && final(out)@ == Seq::<u8>::empty(),
{
    let signature = ed25519_sign(&key.secret, message);
    out.clear();
    match out.extend_from_slice(signature.as_slice()) {
        Ok(()) => Ok(()),
        Err(_) => Err(TlsError::EncodeError),
    }
}

} // verus!
