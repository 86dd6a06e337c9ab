//! [`TlsHash`], [`TlsHmac`] and [`TlsAead`] for the RustCrypto implementations of
//! SHA-256, SHA-384, their HMACs, AES-128-GCM and AES-256-GCM.
//!
//! Every call into those crates goes through one of the small trusted functions
//! below; the trait methods themselves are verified against them.

use vstd::prelude::*;

use crate::crypto::{TlsAead, TlsHash, TlsHmac, ByteArray, NONCE_LEN, TAG_LEN};
use crate::error::TlsError;

use aes_gcm::aead::AeadInOut;
use aes_gcm::aead::KeyInit;
use hmac::Mac;
use sha2::Digest;

verus! {

#[verifier::external_type_specification]
#[verifier::external_body]
pub struct ExSha256(sha2::Sha256);

#[verifier::external_type_specification]
#[verifier::external_body]
pub struct ExSha384(sha2::Sha384);

#[verifier::external_type_specification]
#[verifier::external_body]
pub struct ExAeadError(aes_gcm::Error);

/// An HMAC-SHA-256 computation, served by `hmac::Hmac<sha2::Sha256>`.
///
/// The generic `hmac::Hmac` cannot be declared to Verus (its parameter is bound
/// by a trait of the `hmac` crate), so the computation is held here; it is
/// described by the key it was started with and the message absorbed since.
#[verifier::external_body]
pub struct HmacSha256 {
    inner: hmac::Hmac<sha2::Sha256>,
}

/// An HMAC-SHA-384 computation, served by `hmac::Hmac<sha2::Sha384>`; see [`HmacSha256`].
#[verifier::external_body]
pub struct HmacSha384 {
    inner: hmac::Hmac<sha2::Sha384>,
}

/// AES-128-GCM with a 96-bit nonce and a 128-bit tag, served by `aes_gcm::Aes128Gcm`.
///
/// `aes_gcm::AesGcm` cannot be declared to Verus (its tag size is bound by a
/// trait of the `aes-gcm` crate), so the cipher is held here; it is described by
/// the key it was made with.
#[verifier::external_body]
pub struct Aes128Gcm {
    inner: aes_gcm::Aes128Gcm,
}

/// AES-256-GCM with a 96-bit nonce and a 128-bit tag, served by `aes_gcm::Aes256Gcm`;
/// see [`Aes128Gcm`].
#[verifier::external_body]
pub struct Aes256Gcm {
    inner: aes_gcm::Aes256Gcm,
}

// ---------------------------------------------------------------------------
// SHA-256 / SHA-384
// ---------------------------------------------------------------------------

/// The SHA-256 digest of `data` (FIPS 180-4).
pub uninterp spec fn sha256(data: Seq<u8>) -> [u8; 32];

/// The message a `sha2::Sha256` computation has absorbed so far.
pub uninterp spec fn sha256_absorbed(h: sha2::Sha256) -> Seq<u8>;

/// The SHA-384 digest of `data` (FIPS 180-4).
pub uninterp spec fn sha384(data: Seq<u8>) -> [u8; 48];

/// The message a `sha2::Sha384` computation has absorbed so far.
pub uninterp spec fn sha384_absorbed(h: sha2::Sha384) -> Seq<u8>;

/// `<sha2::Sha256 as Digest>::new`: a computation that has absorbed nothing.
#[verifier::external_body]
fn sha256_new() -> (r: sha2::Sha256)
    ensures
        sha256_absorbed(r) == Seq::<u8>::empty(),
{
    <sha2::Sha256 as Digest>::new()
}

/// `<sha2::Sha256 as Digest>::update`: appends `data` to the absorbed message.
#[verifier::external_body]
fn sha256_update(h: &mut sha2::Sha256, data: &[u8])
    ensures
        sha256_absorbed(*final(h)) == sha256_absorbed(*old(h)) + data@,
{
    Digest::update(h, data)
}

/// `<sha2::Sha256 as Digest>::finalize`: the digest of the absorbed message.
#[verifier::external_body]
fn sha256_finalize(h: sha2::Sha256) -> (r: [u8; 32])
    ensures
        r == sha256(sha256_absorbed(h)),
{
    Digest::finalize(h).into()
}

/// `<sha2::Sha384 as Digest>::new`: a computation that has absorbed nothing.
#[verifier::external_body]
fn sha384_new() -> (r: sha2::Sha384)
    ensures
        sha384_absorbed(r) == Seq::<u8>::empty(),
{
    <sha2::Sha384 as Digest>::new()
}

/// `<sha2::Sha384 as Digest>::update`: appends `data` to the absorbed message.
#[verifier::external_body]
fn sha384_update(h: &mut sha2::Sha384, data: &[u8])
    ensures
        sha384_absorbed(*final(h)) == sha384_absorbed(*old(h)) + data@,
{
    Digest::update(h, data)
}

/// `<sha2::Sha384 as Digest>::finalize`: the digest of the absorbed message.
#[verifier::external_body]
fn sha384_finalize(h: sha2::Sha384) -> (r: [u8; 48])
    ensures
        r == sha384(sha384_absorbed(h)),
{
    Digest::finalize(h).into()
}

// ---------------------------------------------------------------------------
// HMAC-SHA-256 / HMAC-SHA-384
// ---------------------------------------------------------------------------

/// HMAC-SHA-256 of `data` under `key` (RFC 2104).
pub uninterp spec fn hmac_sha256(key: Seq<u8>, data: Seq<u8>) -> [u8; 32];

/// The key an HMAC-SHA-256 computation was started with.
pub uninterp spec fn hmac_sha256_key(m: HmacSha256) -> Seq<u8>;

/// The message an HMAC-SHA-256 computation has absorbed so far.
pub uninterp spec fn hmac_sha256_absorbed(m: HmacSha256) -> Seq<u8>;

/// HMAC-SHA-384 of `data` under `key` (RFC 2104).
pub uninterp spec fn hmac_sha384(key: Seq<u8>, data: Seq<u8>) -> [u8; 48];

/// The key an HMAC-SHA-384 computation was started with.
pub uninterp spec fn hmac_sha384_key(m: HmacSha384) -> Seq<u8>;

/// The message an HMAC-SHA-384 computation has absorbed so far.
pub uninterp spec fn hmac_sha384_absorbed(m: HmacSha384) -> Seq<u8>;

/// `<hmac::Hmac<sha2::Sha256> as KeyInit>::new_from_slice`. HMAC takes keys of
/// any length (longer ones are hashed first), and the crate's `HmacCore` always
/// returns `Ok`, so the `expect` never fires.
#[verifier::external_body]
fn hmac_sha256_new(key: &[u8]) -> (r: HmacSha256)
    ensures
        hmac_sha256_key(r) == key@,
        hmac_sha256_absorbed(r) == Seq::<u8>::empty(),
{
    HmacSha256 {
        inner: <hmac::Hmac<sha2::Sha256> as KeyInit>::new_from_slice(key).expect("HMAC takes keys of any length"),
    }
}

/// `<hmac::Hmac<sha2::Sha256> as Mac>::update`: appends `data` to the absorbed message.
#[verifier::external_body]
fn hmac_sha256_update(m: &mut HmacSha256, data: &[u8])
    ensures
        hmac_sha256_key(*final(m)) == hmac_sha256_key(*old(m)),
        hmac_sha256_absorbed(*final(m)) == hmac_sha256_absorbed(*old(m)) + data@,
{
    Mac::update(&mut m.inner, data)
}

/// `<hmac::Hmac<sha2::Sha256> as Mac>::finalize`: the tag of the absorbed message.
#[verifier::external_body]
fn hmac_sha256_finalize(m: HmacSha256) -> (r: [u8; 32])
    ensures
        r == hmac_sha256(hmac_sha256_key(m), hmac_sha256_absorbed(m)),
{
    Mac::finalize(m.inner).into_bytes().into()
}

/// `<hmac::Hmac<sha2::Sha256> as Mac>::verify_slice`: whether `tag` is the whole
/// tag of the absorbed message (a tag of another length never matches).
#[verifier::external_body]
fn hmac_sha256_verify(m: HmacSha256, tag: &[u8]) -> (r: bool)
    ensures
        r == (tag@ == hmac_sha256(hmac_sha256_key(m), hmac_sha256_absorbed(m))@),
{
    Mac::verify_slice(m.inner, tag).is_ok()
}

/// `<hmac::Hmac<sha2::Sha384> as KeyInit>::new_from_slice`. HMAC takes keys of
/// any length (longer ones are hashed first), and the crate's `HmacCore` always
/// returns `Ok`, so the `expect` never fires.
#[verifier::external_body]
fn hmac_sha384_new(key: &[u8]) -> (r: HmacSha384)
    ensures
        hmac_sha384_key(r) == key@,
        hmac_sha384_absorbed(r) == Seq::<u8>::empty(),
{
    HmacSha384 {
        inner: <hmac::Hmac<sha2::Sha384> as KeyInit>::new_from_slice(key).expect("HMAC takes keys of any length"),
    }
}

/// `<hmac::Hmac<sha2::Sha384> as Mac>::update`: appends `data` to the absorbed message.
#[verifier::external_body]
fn hmac_sha384_update(m: &mut HmacSha384, data: &[u8])
    ensures
        hmac_sha384_key(*final(m)) == hmac_sha384_key(*old(m)),
        hmac_sha384_absorbed(*final(m)) == hmac_sha384_absorbed(*old(m)) + data@,
{
    Mac::update(&mut m.inner, data)
}

/// `<hmac::Hmac<sha2::Sha384> as Mac>::finalize`: the tag of the absorbed message.
#[verifier::external_body]
fn hmac_sha384_finalize(m: HmacSha384) -> (r: [u8; 48])
    ensures
        r == hmac_sha384(hmac_sha384_key(m), hmac_sha384_absorbed(m)),
{
    Mac::finalize(m.inner).into_bytes().into()
}

/// `<hmac::Hmac<sha2::Sha384> as Mac>::verify_slice`: whether `tag` is the whole
/// tag of the absorbed message (a tag of another length never matches).
#[verifier::external_body]
fn hmac_sha384_verify(m: HmacSha384, tag: &[u8]) -> (r: bool)
    ensures
        r == (tag@ == hmac_sha384(hmac_sha384_key(m), hmac_sha384_absorbed(m))@),
{
    Mac::verify_slice(m.inner, tag).is_ok()
}

impl TlsHmac for HmacSha256 {
    type Output = [u8; 32];

    open spec fn spec_mac(key: Seq<u8>, data: Seq<u8>) -> [u8; 32] {
        hmac_sha256(key, data)
    }

    open spec fn key(&self) -> Seq<u8> {
        hmac_sha256_key(*self)
    }

    open spec fn absorbed(&self) -> Seq<u8> {
        hmac_sha256_absorbed(*self)
    }

    fn new(key: &[u8]) -> (r: Self) {
        hmac_sha256_new(key)
    }

    fn update(&mut self, data: &[u8]) {
        hmac_sha256_update(self, data)
    }

    fn finalize(self) -> (r: [u8; 32]) {
        hmac_sha256_finalize(self)
    }

    fn verify(self, tag: &[u8]) -> (r: bool) {
        hmac_sha256_verify(self, tag)
    }
}

impl TlsHmac for HmacSha384 {
    type Output = [u8; 48];

    open spec fn spec_mac(key: Seq<u8>, data: Seq<u8>) -> [u8; 48] {
        hmac_sha384(key, data)
    }

    open spec fn key(&self) -> Seq<u8> {
        hmac_sha384_key(*self)
    }

    open spec fn absorbed(&self) -> Seq<u8> {
        hmac_sha384_absorbed(*self)
    }

    fn new(key: &[u8]) -> (r: Self) {
        hmac_sha384_new(key)
    }

    fn update(&mut self, data: &[u8]) {
        hmac_sha384_update(self, data)
    }

    fn finalize(self) -> (r: [u8; 48]) {
        hmac_sha384_finalize(self)
    }

    fn verify(self, tag: &[u8]) -> (r: bool) {
        hmac_sha384_verify(self, tag)
    }
}

impl TlsHash for sha2::Sha256 {
    type Output = [u8; 32];

    type Hmac = HmacSha256;

    open spec fn spec_digest(data: Seq<u8>) -> [u8; 32] {
        sha256(data)
    }

    open spec fn absorbed(&self) -> Seq<u8> {
        sha256_absorbed(*self)
    }

    fn new() -> (r: Self) {
        let r = sha256_new();
        assert(r.absorbed() == sha256_absorbed(r));
        r
    }

    fn update(&mut self, data: &[u8]) {
        sha256_update(self, data);
        assert(self.absorbed() == sha256_absorbed(*self));
    }

    fn finalize(self) -> (r: [u8; 32]) {
        sha256_finalize(self)
    }
}

impl TlsHash for sha2::Sha384 {
    type Output = [u8; 48];

    type Hmac = HmacSha384;

    open spec fn spec_digest(data: Seq<u8>) -> [u8; 48] {
        sha384(data)
    }

    open spec fn absorbed(&self) -> Seq<u8> {
        sha384_absorbed(*self)
    }

    fn new() -> (r: Self) {
        let r = sha384_new();
        assert(r.absorbed() == sha384_absorbed(r));
        r
    }

    fn update(&mut self, data: &[u8]) {
        sha384_update(self, data);
        assert(self.absorbed() == sha384_absorbed(*self));
    }

    fn finalize(self) -> (r: [u8; 48]) {
        sha384_finalize(self)
    }
}

// ---------------------------------------------------------------------------
// AES-GCM
// ---------------------------------------------------------------------------

/// The longest plaintext, in bytes, that AES-GCM seals (`aes_gcm::P_MAX`).
pub open spec fn gcm_max_plaintext() -> int {
    0x10_0000_0000 - 32
}

/// The longest associated data, in bytes, that AES-GCM authenticates (`aes_gcm::A_MAX`).
pub open spec fn gcm_max_aad() -> int {
    0x2000_0000_0000_0000 - 1
}

/// Whether AES-GCM accepts a message and associated data of these lengths.
pub open spec fn gcm_lengths_ok(msg_len: nat, aad_len: nat) -> bool {
    msg_len <= gcm_max_plaintext() && aad_len <= gcm_max_aad()
}

/// AES-128-GCM sealing (NIST SP 800-38D): the ciphertext, as long as the
/// plaintext, and the 16-byte tag.
pub uninterp spec fn aes128_gcm_seal(key: Seq<u8>, nonce: Seq<u8>, aad: Seq<u8>, plaintext: Seq<u8>) -> (Seq<u8>, [u8; 16]);

/// The key an AES-128-GCM cipher was made with.
pub uninterp spec fn aes128_gcm_key(c: Aes128Gcm) -> Seq<u8>;

/// AES-256-GCM sealing (NIST SP 800-38D): the ciphertext, as long as the
/// plaintext, and the 16-byte tag.
pub uninterp spec fn aes256_gcm_seal(key: Seq<u8>, nonce: Seq<u8>, aad: Seq<u8>, plaintext: Seq<u8>) -> (Seq<u8>, [u8; 16]);

/// The key an AES-256-GCM cipher was made with.
pub uninterp spec fn aes256_gcm_key(c: Aes256Gcm) -> Seq<u8>;

/// `<aes_gcm::Aes128Gcm as KeyInit>::new`: a cipher keyed with `key`.
#[verifier::external_body]
fn aes128_gcm_new(key: &[u8; 16]) -> (r: Aes128Gcm)
    ensures
        aes128_gcm_key(r) == key@,
{
    Aes128Gcm { inner: <aes_gcm::Aes128Gcm as KeyInit>::new(key.into()) }
}

/// `<aes_gcm::Aes128Gcm as AeadInOut>::encrypt_inout_detached`: the source refuses,
/// leaving the buffer alone, exactly when the plaintext is longer than `P_MAX` or
/// the associated data longer than `A_MAX`; otherwise it seals the buffer in place
/// and returns the tag.
#[verifier::external_body]
fn aes128_gcm_encrypt(c: &Aes128Gcm, nonce: &[u8; 12], aad: &[u8], buf: &mut [u8]) -> (r: Result<[u8; 16], aes_gcm::Error>)
    ensures
        r is Ok <==> gcm_lengths_ok(old(buf)@.len(), aad@.len()),
        r matches Ok(tag) ==> (final(buf)@, tag) == aes128_gcm_seal(aes128_gcm_key(*c), nonce@, aad@, old(buf)@),
        r is Err ==> final(buf)@ == old(buf)@,
{
    match c.inner.encrypt_inout_detached(nonce.into(), aad, buf.into()) {
        Ok(tag) => Ok(tag.into()),
        Err(e) => Err(e),
    }
}

/// `<aes_gcm::Aes128Gcm as AeadInOut>::decrypt_inout_detached`: the source checks
/// the lengths and the tag before it touches the buffer, and on success applies
/// the same keystream that sealing applied, so the buffer becomes the one
/// plaintext that seals to the ciphertext and tag.
#[verifier::external_body]
fn aes128_gcm_decrypt(c: &Aes128Gcm, nonce: &[u8; 12], aad: &[u8], buf: &mut [u8], tag: &[u8; 16]) -> (r: Result<(), aes_gcm::Error>)
    ensures
        r is Ok ==> aes128_gcm_seal(aes128_gcm_key(*c), nonce@, aad@, final(buf)@) == (old(buf)@, *tag),
        r is Err ==> final(buf)@ == old(buf)@,
        forall|pt: Seq<u8>|
            #[trigger] aes128_gcm_seal(aes128_gcm_key(*c), nonce@, aad@, pt) == (old(buf)@, *tag)
                && gcm_lengths_ok(pt.len(), aad@.len()) ==> r is Ok && final(buf)@ == pt,
{
    match c.inner.decrypt_inout_detached(nonce.into(), aad, buf.into(), tag.into()) {
        Ok(()) => Ok(()),
        Err(e) => Err(e),
    }
}

/// `<aes_gcm::Aes256Gcm as KeyInit>::new`: a cipher keyed with `key`.
#[verifier::external_body]
fn aes256_gcm_new(key: &[u8; 32]) -> (r: Aes256Gcm)
    ensures
        aes256_gcm_key(r) == key@,
{
    Aes256Gcm { inner: <aes_gcm::Aes256Gcm as KeyInit>::new(key.into()) }
}

/// `<aes_gcm::Aes256Gcm as AeadInOut>::encrypt_inout_detached`; see [`aes128_gcm_encrypt`].
#[verifier::external_body]
fn aes256_gcm_encrypt(c: &Aes256Gcm, nonce: &[u8; 12], aad: &[u8], buf: &mut [u8]) -> (r: Result<[u8; 16], aes_gcm::Error>)
    ensures
        r is Ok <==> gcm_lengths_ok(old(buf)@.len(), aad@.len()),
        r matches Ok(tag) ==> (final(buf)@, tag) == aes256_gcm_seal(aes256_gcm_key(*c), nonce@, aad@, old(buf)@),
        r is Err ==> final(buf)@ == old(buf)@,
{
    match c.inner.encrypt_inout_detached(nonce.into(), aad, buf.into()) {
        Ok(tag) => Ok(tag.into()),
        Err(e) => Err(e),
    }
}

/// `<aes_gcm::Aes256Gcm as AeadInOut>::decrypt_inout_detached`; see [`aes128_gcm_decrypt`].
#[verifier::external_body]
fn aes256_gcm_decrypt(c: &Aes256Gcm, nonce: &[u8; 12], aad: &[u8], buf: &mut [u8], tag: &[u8; 16]) -> (r: Result<(), aes_gcm::Error>)
    ensures
        r is Ok ==> aes256_gcm_seal(aes256_gcm_key(*c), nonce@, aad@, final(buf)@) == (old(buf)@, *tag),
        r is Err ==> final(buf)@ == old(buf)@,
        forall|pt: Seq<u8>|
            #[trigger] aes256_gcm_seal(aes256_gcm_key(*c), nonce@, aad@, pt) == (old(buf)@, *tag)
                && gcm_lengths_ok(pt.len(), aad@.len()) ==> r is Ok && final(buf)@ == pt,
{
    match c.inner.decrypt_inout_detached(nonce.into(), aad, buf.into(), tag.into()) {
        Ok(()) => Ok(()),
        Err(e) => Err(e),
    }
}

impl TlsAead for Aes128Gcm {
    type Key = [u8; 16];

    open spec fn spec_seal(key: Seq<u8>, nonce: Seq<u8>, aad: Seq<u8>, plaintext: Seq<u8>) -> (Seq<u8>, [u8; TAG_LEN]) {
        aes128_gcm_seal(key, nonce, aad, plaintext)
    }

    open spec fn key(&self) -> Seq<u8> {
        aes128_gcm_key(*self)
    }

    fn new(key: &[u8; 16]) -> (r: Self) {
        aes128_gcm_new(key)
    }

    fn encrypt(&self, nonce: &[u8; NONCE_LEN], aad: &[u8], buf: &mut [u8]) -> (r: Result<[u8; TAG_LEN], TlsError>)
        ensures
            r is Ok <==> gcm_lengths_ok(old(buf)@.len(), aad@.len()),
    {
        match aes128_gcm_encrypt(self, nonce, aad, buf) {
            Ok(tag) => Ok(tag),
            Err(_) => Err(TlsError::CryptoError),
        }
    }

    fn decrypt(&self, nonce: &[u8; NONCE_LEN], aad: &[u8], buf: &mut [u8], tag: &[u8; TAG_LEN]) -> (r: Result<(), TlsError>)
        ensures
            forall|pt: Seq<u8>|
                #[trigger] aes128_gcm_seal(aes128_gcm_key(*self), nonce@, aad@, pt) == (old(buf)@, *tag)
                    && gcm_lengths_ok(pt.len(), aad@.len()) ==> r is Ok && final(buf)@ == pt,
    {
        match aes128_gcm_decrypt(self, nonce, aad, buf, tag) {
            Ok(()) => Ok(()),
            Err(_) => Err(TlsError::CryptoError),
        }
    }
}

impl TlsAead for Aes256Gcm {
    type Key = [u8; 32];

    open spec fn spec_seal(key: Seq<u8>, nonce: Seq<u8>, aad: Seq<u8>, plaintext: Seq<u8>) -> (Seq<u8>, [u8; TAG_LEN]) {
        aes256_gcm_seal(key, nonce, aad, plaintext)
    }

    open spec fn key(&self) -> Seq<u8> {
        aes256_gcm_key(*self)
    }

    fn new(key: &[u8; 32]) -> (r: Self) {
        aes256_gcm_new(key)
    }

    fn encrypt(&self, nonce: &[u8; NONCE_LEN], aad: &[u8], buf: &mut [u8]) -> (r: Result<[u8; TAG_LEN], TlsError>)
        ensures
            r is Ok <==> gcm_lengths_ok(old(buf)@.len(), aad@.len()),
    {
        match aes256_gcm_encrypt(self, nonce, aad, buf) {
            Ok(tag) => Ok(tag),
            Err(_) => Err(TlsError::CryptoError),
        }
    }

    fn decrypt(&self, nonce: &[u8; NONCE_LEN], aad: &[u8], buf: &mut [u8], tag: &[u8; TAG_LEN]) -> (r: Result<(), TlsError>)
        ensures
            forall|pt: Seq<u8>|
                #[trigger] aes256_gcm_seal(aes256_gcm_key(*self), nonce@, aad@, pt) == (old(buf)@, *tag)
                    && gcm_lengths_ok(pt.len(), aad@.len()) ==> r is Ok && final(buf)@ == pt,
    {
        match aes256_gcm_decrypt(self, nonce, aad, buf, tag) {
            Ok(()) => Ok(()),
            Err(_) => Err(TlsError::CryptoError),
        }
    }
}

} // verus!
