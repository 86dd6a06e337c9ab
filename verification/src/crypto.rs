//! The small set of cryptographic abstractions the TLS state machine is generic
//! over ([`TlsHash`], [`TlsHmac`] and [`TlsAead`]), and HKDF built on top of them.

use vstd::prelude::*;

use crate::error::TlsError;

verus! {

/// Size of an AEAD nonce, in bytes. TLS 1.3 uses 96-bit nonces for every cipher suite.
pub const NONCE_LEN: usize = 12;

/// Size of an AEAD tag, in bytes. TLS 1.3 uses 128-bit tags for every cipher suite.
pub const TAG_LEN: usize = 16;

/// A fixed-size byte array, as produced by a hash or used as an AEAD key.
pub trait ByteArray: Sized + Copy + core::fmt::Debug {
    /// Length in bytes.
    const LEN: usize;

    /// The bytes of the array.
    spec fn bytes(&self) -> Seq<u8>;

    /// Every array holds exactly `LEN` bytes.
    proof fn lemma_len(a: Self)
        ensures
            a.bytes().len() == Self::LEN,
    ;

    /// An all-zero array.
    fn zeroed() -> (r: Self)
        ensures
            r.bytes() == Seq::new(Self::LEN as nat, |i: int| 0u8),
    ;

    /// The bytes, borrowed.
    fn as_slice(&self) -> (s: &[u8])
        ensures
            s@ == self.bytes(),
    ;

    /// The bytes, borrowed mutably: what is written through the slice is the new array.
    fn as_mut_slice(&mut self) -> (s: &mut [u8])
        ensures
            s@ == old(self).bytes(),
            final(self).bytes() == final(s)@,
    ;
}

impl<const N: usize> ByteArray for [u8; N] {
    const LEN: usize = N;

    open spec fn bytes(&self) -> Seq<u8> {
        self@
    }

    proof fn lemma_len(a: Self) {
    }

    fn zeroed() -> (r: Self) {
        let r = [0u8; N];
        assert(r@ =~= Seq::new(N as nat, |i: int| 0u8));
        r
    }

    fn as_slice(&self) -> (s: &[u8]) {
        self.as_slice()
    }

    fn as_mut_slice(&mut self) -> (s: &mut [u8]) {
        self
    }
}

/// A message authentication code usable for HKDF and the `Finished` messages.
///
/// A MAC value remembers the key it was started with and the data absorbed
/// since; finishing it yields `spec_mac(key, data)`.
pub trait TlsHmac: Sized {
    /// The tag.
    type Output: ByteArray;

    /// The tag of `data` under `key`.
    spec fn spec_mac(key: Seq<u8>, data: Seq<u8>) -> Self::Output;

    /// The key this computation was started with.
    spec fn key(&self) -> Seq<u8>;

    /// The data absorbed so far.
    spec fn absorbed(&self) -> Seq<u8>;

    /// Start a new MAC computation with `key`.
    fn new(key: &[u8]) -> (r: Self)
        ensures
            r.key() == key@,
            r.absorbed() == Seq::<u8>::empty(),
    ;

    /// Absorb `data`.
    fn update(&mut self, data: &[u8])
        ensures
            final(self).key() == old(self).key(),
            final(self).absorbed() == old(self).absorbed() + data@,
    ;

    /// Finish the computation and return the tag.
    fn finalize(self) -> (r: Self::Output)
        ensures
            r == Self::spec_mac(self.key(), self.absorbed()),
    ;

    /// Finish the computation and compare the tag with `tag` in constant time.
    fn verify(self, tag: &[u8]) -> (r: bool)
        ensures
            r == (tag@ == Self::spec_mac(self.key(), self.absorbed()).bytes()),
    ;
}

/// A hash function usable as a TLS 1.3 transcript and HKDF hash.
pub trait TlsHash: Sized + Clone {
    /// The digest.
    type Output: ByteArray;

    /// HMAC over this hash.
    type Hmac: TlsHmac<Output = Self::Output>;

    /// The digest of `data`.
    spec fn spec_digest(data: Seq<u8>) -> Self::Output;

    /// The data absorbed so far.
    spec fn absorbed(&self) -> Seq<u8>;

    /// Start a new hash computation.
    fn new() -> (r: Self)
        ensures
            r.absorbed() == Seq::<u8>::empty(),
    ;

    /// Absorb `data`.
    fn update(&mut self, data: &[u8])
        ensures
            final(self).absorbed() == old(self).absorbed() + data@,
    ;

    /// Finish the computation and return the digest.
    fn finalize(self) -> (r: Self::Output)
        ensures
            r == Self::spec_digest(self.absorbed()),
    ;

    /// Compute the digest of `data` in one call.
    fn digest(data: &[u8]) -> (r: Self::Output)
        ensures
            r == Self::spec_digest(data@),
    {
        let mut hash = Self::new();
        hash.update(data);
        assert(hash.absorbed() =~= data@);
        hash.finalize()
    }
}

/// An authenticated cipher usable as a TLS 1.3 record protection algorithm.
///
/// `spec_seal(key, nonce, aad, plaintext)` is the ciphertext (as long as the
/// plaintext) and the tag that sealing produces.
pub trait TlsAead: Sized {
    /// The key.
    type Key: ByteArray;

    /// The ciphertext and tag that sealing `plaintext` produces.
    spec fn spec_seal(key: Seq<u8>, nonce: Seq<u8>, aad: Seq<u8>, plaintext: Seq<u8>) -> (Seq<u8>, [u8; TAG_LEN]);

    /// The key this cipher was initialized with.
    spec fn key(&self) -> Seq<u8>;

    /// Initialize with `key`.
    fn new(key: &Self::Key) -> (r: Self)
        ensures
            r.key() == key.bytes(),
    ;

    /// Encrypt `buf` in place, authenticating it and `aad`, and return the tag.
    fn encrypt(&self, nonce: &[u8; NONCE_LEN], aad: &[u8], buf: &mut [u8]) -> (r: Result<[u8; TAG_LEN], TlsError>)
        ensures
            r matches Ok(tag) ==> (final(buf)@, tag) == Self::spec_seal(self.key(), nonce@, aad@, old(buf)@),
            r is Err ==> r == Err::<[u8; TAG_LEN], TlsError>(TlsError::CryptoError) && final(buf)@ == old(buf)@,
    ;

    /// Verify `tag` over `buf` and `aad`, then decrypt `buf` in place.
    fn decrypt(&self, nonce: &[u8; NONCE_LEN], aad: &[u8], buf: &mut [u8], tag: &[u8; TAG_LEN]) -> (r: Result<(), TlsError>)
        ensures
            r is Ok ==> Self::spec_seal(self.key(), nonce@, aad@, final(buf)@) == (old(buf)@, *tag),
            r is Err ==> r == Err::<(), TlsError>(TlsError::CryptoError) && final(buf)@ == old(buf)@,
    ;
}

// ---------------------------------------------------------------------------
// HKDF
// ---------------------------------------------------------------------------

/// `T(i)` of RFC 5869: `T(0)` is empty and `T(i) = HMAC(prk, T(i-1) | info | i)`.
pub open spec fn hkdf_block<M: TlsHmac>(prk: Seq<u8>, info: Seq<u8>, i: nat) -> Seq<u8>
    decreases i,
{
    if i == 0 {
        Seq::empty()
    } else {
        M::spec_mac(prk, hkdf_block::<M>(prk, info, (i - 1) as nat) + info + seq![i as u8]).bytes()
    }
}

/// `T(1) | T(2) | ... | T(n)`.
pub open spec fn hkdf_stream<M: TlsHmac>(prk: Seq<u8>, info: Seq<u8>, n: nat) -> Seq<u8>
    decreases n,
{
    if n == 0 {
        Seq::empty()
    } else {
        hkdf_stream::<M>(prk, info, (n - 1) as nat) + hkdf_block::<M>(prk, info, n)
    }
}

/// The number of `block`-sized blocks needed to cover `len` bytes.
pub open spec fn blocks_for(len: nat, block: nat) -> nat {
    if block == 0 {
        0
    } else {
        (len + block - 1) as nat / block
    }
}

/// `HKDF-Expand(prk, info, len)`: the first `len` bytes of the block stream.
pub open spec fn hkdf_expand<M: TlsHmac>(prk: Seq<u8>, info: Seq<u8>, len: nat) -> Seq<u8> {
    hkdf_stream::<M>(prk, info, blocks_for(len, M::Output::LEN as nat)).take(len as int)
}

/// Whether `HKDF-Expand` can produce `len` bytes with a `block`-byte hash
/// (RFC 5869 allows at most 255 blocks).
pub open spec fn hkdf_expand_ok(len: nat, block: nat) -> bool {
    blocks_for(len, block) <= 255
}

/// Every block of the stream is as long as a tag.
pub proof fn lemma_hkdf_block_len<M: TlsHmac>(prk: Seq<u8>, info: Seq<u8>, i: nat)
    requires
        i >= 1,
    ensures
        hkdf_block::<M>(prk, info, i).len() == M::Output::LEN,
{
    M::Output::lemma_len(M::spec_mac(prk, hkdf_block::<M>(prk, info, (i - 1) as nat) + info + seq![i as u8]));
}

/// The stream of `n` blocks is `n` tags long.
pub proof fn lemma_hkdf_stream_len<M: TlsHmac>(prk: Seq<u8>, info: Seq<u8>, n: nat)
    ensures
        hkdf_stream::<M>(prk, info, n).len() == n * M::Output::LEN,
    decreases n,
{
    let len = M::Output::LEN as int;
    if n > 0 {
        lemma_hkdf_stream_len::<M>(prk, info, (n - 1) as nat);
        lemma_hkdf_block_len::<M>(prk, info, n);
        assert(hkdf_stream::<M>(prk, info, n) == hkdf_stream::<M>(prk, info, (n - 1) as nat)
            + hkdf_block::<M>(prk, info, n));
        assert(n * len == (n - 1) * len + len) by (nonlinear_arith)
            requires n > 0;
    } else {
        assert(n * len == 0) by (nonlinear_arith) requires n == 0;
    }
}

/// A shorter stream is a prefix of a longer one.
pub proof fn lemma_hkdf_stream_prefix<M: TlsHmac>(prk: Seq<u8>, info: Seq<u8>, m: nat, n: nat)
    requires
        m <= n,
    ensures
        hkdf_stream::<M>(prk, info, m).len() <= hkdf_stream::<M>(prk, info, n).len(),
        hkdf_stream::<M>(prk, info, n).take(hkdf_stream::<M>(prk, info, m).len() as int)
            == hkdf_stream::<M>(prk, info, m),
    decreases n,
{
    if m < n {
        lemma_hkdf_stream_prefix::<M>(prk, info, m, (n - 1) as nat);
        let s = hkdf_stream::<M>(prk, info, (n - 1) as nat);
        let b = hkdf_block::<M>(prk, info, n);
        assert((s + b).take(hkdf_stream::<M>(prk, info, m).len() as int)
            =~= s.take(hkdf_stream::<M>(prk, info, m).len() as int));
    } else {
        assert(hkdf_stream::<M>(prk, info, n).take(hkdf_stream::<M>(prk, info, n).len() as int)
            =~= hkdf_stream::<M>(prk, info, n));
    }
}

/// `HKDF-Expand` gives as many bytes as asked for, whenever it may give them.
pub proof fn lemma_hkdf_expand_len<M: TlsHmac>(prk: Seq<u8>, info: Seq<u8>, len: nat)
    requires
        M::Output::LEN > 0,
    ensures
        hkdf_expand::<M>(prk, info, len).len() == len,
{
    lemma_blocks_for(len, M::Output::LEN as nat);
    lemma_hkdf_stream_len::<M>(prk, info, blocks_for(len, M::Output::LEN as nat));
}

/// Asking `HKDF-Expand` for fewer bytes gives a prefix of what asking for more
/// gives: the output does not depend on how much of it is taken.
pub proof fn lemma_hkdf_expand_prefix<M: TlsHmac>(prk: Seq<u8>, info: Seq<u8>, short: nat, long: nat)
    requires
        M::Output::LEN > 0,
        short <= long,
    ensures
        hkdf_expand::<M>(prk, info, short) == hkdf_expand::<M>(prk, info, long).take(short as int),
{
    let b = M::Output::LEN as nat;
    lemma_blocks_for(short, b);
    lemma_blocks_for(long, b);
    let m = blocks_for(short, b);
    let n = blocks_for(long, b);
    assert(m <= n) by (nonlinear_arith)
        requires
            short <= long,
            short + b > m * b,
            long <= n * b,
            b > 0,
    ;
    lemma_hkdf_stream_prefix::<M>(prk, info, m, n);
    lemma_hkdf_stream_len::<M>(prk, info, m);
    lemma_hkdf_stream_len::<M>(prk, info, n);
    let sm = hkdf_stream::<M>(prk, info, m);
    let sn = hkdf_stream::<M>(prk, info, n);
    assert(sn.take(sm.len() as int) == sm);
    assert(sm.take(short as int) =~= sn.take(long as int).take(short as int));
}

/// Block `i` (numbered from 1) of `s` cut into `size`-byte blocks.
pub open spec fn nth_block(s: Seq<u8>, size: nat, i: nat) -> Seq<u8> {
    s.subrange(((i - 1) * size) as int, (i * size) as int)
}

/// Within a stream of `n` blocks, block `i` is `T(i)`.
proof fn lemma_hkdf_stream_block<M: TlsHmac>(prk: Seq<u8>, info: Seq<u8>, n: nat, i: nat)
    requires
        M::Output::LEN > 0,
        1 <= i <= n,
    ensures
        nth_block(hkdf_stream::<M>(prk, info, n), M::Output::LEN as nat, i) == hkdf_block::<M>(prk, info, i),
{
    let len = M::Output::LEN as nat;
    lemma_hkdf_stream_prefix::<M>(prk, info, i, n);
    lemma_hkdf_stream_len::<M>(prk, info, i);
    lemma_hkdf_stream_len::<M>(prk, info, (i - 1) as nat);
    lemma_hkdf_stream_len::<M>(prk, info, n);
    lemma_hkdf_block_len::<M>(prk, info, i);
    let sn = hkdf_stream::<M>(prk, info, n);
    let si = hkdf_stream::<M>(prk, info, i);
    let prev = hkdf_stream::<M>(prk, info, (i - 1) as nat);
    assert(si == prev + hkdf_block::<M>(prk, info, i));
    assert((i - 1) * len + len == i * len) by (nonlinear_arith)
        requires i >= 1;
    assert(i * len <= n * len) by (nonlinear_arith)
        requires i <= n;
    assert(sn.take(si.len() as int) == si);
    assert(sn.subrange(((i - 1) * len) as int, (i * len) as int)
        =~= si.subrange(((i - 1) * len) as int, (i * len) as int));
    assert(si.subrange(((i - 1) * len) as int, (i * len) as int) =~= hkdf_block::<M>(prk, info, i));
}

/// Block `i` of `HKDF-Expand(prk, info, len)`, when the output covers it, is `T(i)`.
proof fn lemma_hkdf_expand_block<M: TlsHmac>(prk: Seq<u8>, info: Seq<u8>, len: nat, i: nat)
    requires
        M::Output::LEN > 0,
        1 <= i,
        i * M::Output::LEN <= len,
    ensures
        nth_block(hkdf_expand::<M>(prk, info, len), M::Output::LEN as nat, i) == hkdf_block::<M>(prk, info, i),
{
    let b = M::Output::LEN as nat;
    lemma_blocks_for(len, b);
    let n = blocks_for(len, b);
    assert(i <= n) by (nonlinear_arith)
        requires
            i * b <= len,
            len <= n * b,
            b > 0,
    ;
    lemma_hkdf_stream_block::<M>(prk, info, n, i);
    lemma_hkdf_stream_len::<M>(prk, info, n);
    assert((i - 1) * b <= i * b) by (nonlinear_arith)
        requires i >= 1;
    let sn = hkdf_stream::<M>(prk, info, n);
    assert(sn.take(len as int).subrange(((i - 1) * b) as int, (i * b) as int)
        =~= sn.subrange(((i - 1) * b) as int, (i * b) as int));
}

/// The first block of `HKDF-Expand` is `HMAC(prk, info | 0x01)`, keyed with the
/// whole pseudorandom key (RFC 5869 section 2.3).
pub proof fn lemma_hkdf_expand_first_block<M: TlsHmac>(prk: Seq<u8>, info: Seq<u8>, len: nat)
    requires
        M::Output::LEN > 0,
        M::Output::LEN <= len,
    ensures
        nth_block(hkdf_expand::<M>(prk, info, len), M::Output::LEN as nat, 1)
            == M::spec_mac(prk, info + seq![1u8]).bytes(),
{
    lemma_hkdf_expand_block::<M>(prk, info, len, 1);
    assert(hkdf_block::<M>(prk, info, 0) + info + seq![1u8] =~= info + seq![1u8]);
}

/// Each later block `i` of `HKDF-Expand` is the HMAC, keyed with the whole
/// pseudorandom key, of the block before it, `info` and the counter `i`
/// (RFC 5869 section 2.3).
pub proof fn lemma_hkdf_expand_next_block<M: TlsHmac>(prk: Seq<u8>, info: Seq<u8>, len: nat, i: nat)
    requires
        M::Output::LEN > 0,
        2 <= i <= 255,
        i * M::Output::LEN <= len,
    ensures
        nth_block(hkdf_expand::<M>(prk, info, len), M::Output::LEN as nat, i) == M::spec_mac(
            prk,
            nth_block(hkdf_expand::<M>(prk, info, len), M::Output::LEN as nat, (i - 1) as nat) + info + seq![i as u8],
        ).bytes(),
{
    let b = M::Output::LEN as nat;
    lemma_hkdf_expand_block::<M>(prk, info, len, i);
    assert((i - 1) * b <= i * b) by (nonlinear_arith)
        requires i >= 1;
    lemma_hkdf_expand_block::<M>(prk, info, len, (i - 1) as nat);
}

/// HKDF (RFC 5869) over a [`TlsHash`].
pub struct Hkdf<H: TlsHash> {
    prk: H::Output,
}

impl<H: TlsHash> Hkdf<H> {
    /// The bytes of the pseudorandom key.
    pub closed spec fn prk_bytes(&self) -> Seq<u8> {
        self.prk.bytes()
    }

    /// `HKDF-Extract(salt, ikm)`.
    pub fn extract(salt: &[u8], ikm: &[u8]) -> (r: Self)
        ensures
            r.prk_bytes() == H::Hmac::spec_mac(salt@, ikm@).bytes(),
    {
        let mut mac = H::Hmac::new(salt);
        mac.update(ikm);
        assert(mac.absorbed() =~= ikm@);
        Self { prk: mac.finalize() }
    }

    /// Wrap an existing pseudorandom key.
    pub fn from_prk(prk: &[u8]) -> (r: Result<Self, TlsError>)
        ensures
            prk@.len() == H::Output::LEN <==> r is Ok,
            r matches Ok(h) ==> h.prk_bytes() == prk@,
            r is Err ==> r == Err::<Self, TlsError>(TlsError::InternalError),
    {
        if prk.len() != H::Output::LEN {
            return Err(TlsError::InternalError);
        }
        let mut out = H::Output::zeroed();
        {
            let dst = out.as_mut_slice();
            let n = dst.len();
            let mut i: usize = 0;
            while i < n
                invariant
                    n == dst@.len(),
                    n == prk@.len(),
                    i <= n,
                    forall|j: int| 0 <= j < i ==> dst@[j] == prk@[j],
                decreases n - i,
            {
                dst[i] = prk[i];
                i = i + 1;
            }
            assert(dst@ =~= prk@);
        }
        Ok(Self { prk: out })
    }

    /// The pseudorandom key is as long as a digest, so [`Hkdf::from_prk`] accepts
    /// what [`Hkdf::prk`] gives and wraps the same key again.
    pub proof fn lemma_prk_roundtrip(&self)
        ensures
            self.prk_bytes().len() == H::Output::LEN,
    {
        H::Output::lemma_len(self.prk);
    }

    /// The pseudorandom key.
    pub fn prk(&self) -> (r: &H::Output)
        ensures
            r.bytes() == self.prk_bytes(),
    {
        &self.prk
    }

    /// `HKDF-Expand(prk, info, okm.len())`, written to `okm`.
    pub fn expand(&self, info: &[u8], okm: &mut [u8]) -> (r: Result<(), TlsError>)
        requires
            H::Output::LEN > 0,
        ensures
            r is Ok <==> hkdf_expand_ok(old(okm)@.len(), H::Output::LEN as nat),
            r is Ok ==> final(okm)@ == hkdf_expand::<H::Hmac>(self.prk_bytes(), info@, old(okm)@.len()),
            r is Ok && H::Output::LEN <= old(okm)@.len() ==> nth_block(final(okm)@, H::Output::LEN as nat, 1)
                == H::Hmac::spec_mac(self.prk_bytes(), info@ + seq![1u8]).bytes(),
            r is Ok ==> forall|i: nat|
                2 <= i <= 255 && i * H::Output::LEN <= old(okm)@.len() ==> #[trigger] nth_block(
                    final(okm)@,
                    H::Output::LEN as nat,
                    i,
                ) == H::Hmac::spec_mac(
                    self.prk_bytes(),
                    nth_block(final(okm)@, H::Output::LEN as nat, (i - 1) as nat) + info@ + seq![i as u8],
                ).bytes(),
            r is Err ==> r == Err::<(), TlsError>(TlsError::CryptoError) && final(okm)@ == old(okm)@,
    {
        let hash_len = H::Output::LEN;
        let total = okm.len();
        proof {
            lemma_blocks_for(total as nat, hash_len as nat);
        }
        let blocks = if total % hash_len == 0 { total / hash_len } else { total / hash_len + 1 };
        if blocks > 255 {
            return Err(TlsError::CryptoError);
        }
        let ghost prk = self.prk_bytes();
        let ghost okm0 = okm@;
        let mut previous: Option<H::Output> = None;
        let mut pos: usize = 0;
        let mut i: usize = 0;
        while pos < total
            invariant
                hash_len == H::Output::LEN,
                hash_len > 0,
                total == okm@.len(),
                blocks == blocks_for(total as nat, hash_len as nat),
                blocks <= 255,
                total <= blocks * hash_len,
                total + hash_len > blocks * hash_len,
                prk == self.prk_bytes(),
                pos <= total,
                pos < total ==> pos == i * hash_len,
                pos == total ==> i == blocks,
                i <= blocks,
                hkdf_stream::<H::Hmac>(prk, info@, i as nat).len() == i * hash_len,
                okm@.take(pos as int) == hkdf_stream::<H::Hmac>(prk, info@, i as nat).take(pos as int),
                match previous {
                    Some(p) => i >= 1 && p.bytes() == hkdf_block::<H::Hmac>(prk, info@, i as nat),
                    None => i == 0,
                },
            decreases total - pos,
        {
            proof {
                assert(i < blocks) by (nonlinear_arith)
                    requires
                        pos == i * hash_len,
                        pos < total,
                        total <= blocks * hash_len,
                        hash_len > 0,
                ;
            }
            let mut mac = H::Hmac::new(self.prk.as_slice());
            match &previous {
                Some(p) => {
                    mac.update(p.as_slice());
                },
                None => {},
            }
            mac.update(info);
            let counter: [u8; 1] = [(i + 1) as u8];
            mac.update(counter.as_slice());
            let block = mac.finalize();
            let ghost prev_bytes = hkdf_block::<H::Hmac>(prk, info@, i as nat);
            proof {
                assert(mac.absorbed() =~= prev_bytes + info@ + seq![(i + 1) as u8]);
                assert(block.bytes() == hkdf_block::<H::Hmac>(prk, info@, (i + 1) as nat));
                H::Output::lemma_len(block);
                lemma_hkdf_block_len::<H::Hmac>(prk, info@, (i + 1) as nat);
                assert((i + 1) * hash_len == i * hash_len + hash_len) by (nonlinear_arith);
                assert((i + 1) * hash_len <= blocks * hash_len) by (nonlinear_arith)
                    requires i + 1 <= blocks;
            }
            let end = if total - pos < hash_len { total } else { pos + hash_len };
            let src = block.as_slice();
            let ghost before = okm@;
            let mut j: usize = pos;
            while j < end
                invariant
                    pos <= j <= end,
                    end <= total,
                    end - pos <= hash_len,
                    src@.len() == hash_len,
                    total == okm@.len(),
                    before.len() == total,
                    forall|k: int| 0 <= k < pos ==> okm@[k] == before[k],
                    forall|k: int| pos <= k < j ==> okm@[k] == src@[k - pos],
                decreases end - j,
            {
                okm[j] = src[j - pos];
                j = j + 1;
            }
            proof {
                let ghost s_next = hkdf_stream::<H::Hmac>(prk, info@, (i + 1) as nat);
                let ghost s_cur = hkdf_stream::<H::Hmac>(prk, info@, i as nat);
                assert(s_next == s_cur + block.bytes());
                assert(pos == i * hash_len);
                assert forall|k: int| 0 <= k < end implies okm@[k] == s_next[k] by {
                    if k < pos {
                        assert(before.take(pos as int)[k] == s_cur.take(pos as int)[k]);
                    } else {
                        assert(okm@[k] == src@[k - pos]);
                    }
                }
                assert(okm@.take(end as int) =~= s_next.take(end as int));
                if end == total {
                    assert((i + 1) * hash_len >= total);
                    assert(i + 1 == blocks) by (nonlinear_arith)
                        requires
                            (i + 1) * hash_len >= total,
                            i * hash_len < total,
                            total + hash_len > blocks * hash_len,
                            total <= blocks * hash_len,
                            hash_len > 0,
                    ;
                }
            }
            previous = Some(block);
            pos = end;
            i = i + 1;
        }
        proof {
            lemma_hkdf_stream_len::<H::Hmac>(prk, info@, blocks as nat);
            assert(okm@ =~= okm@.take(total as int));
            if hash_len <= total {
                lemma_hkdf_expand_first_block::<H::Hmac>(prk, info@, total as nat);
            }
            assert forall|k: nat|
                2 <= k <= 255 && k * hash_len <= total implies #[trigger] nth_block(okm@, hash_len as nat, k)
                    == H::Hmac::spec_mac(prk, nth_block(okm@, hash_len as nat, (k - 1) as nat) + info@ + seq![k as u8]).bytes() by {
                lemma_hkdf_expand_next_block::<H::Hmac>(prk, info@, total as nat, k);
            }
        }
        Ok(())
    }
}

/// `blocks_for` is the ceiling of the quotient.
proof fn lemma_blocks_for(len: nat, block: nat)
    requires
        block > 0,
    ensures
        blocks_for(len, block) == len / block + if len % block == 0 { 0nat } else { 1nat },
        len == 0 ==> blocks_for(len, block) == 0,
        len % block != 0 ==> block >= 2 && len / block < len,
        len <= blocks_for(len, block) * block,
        len + block > blocks_for(len, block) * block,
{
    let q = len / block;
    let r = len % block;
    assert(len == q * block + r) by (nonlinear_arith)
        requires block > 0, q == len / block, r == len % block;
    assert(0 <= r < block) by (nonlinear_arith)
        requires block > 0, r == len % block;
    if r == 0 {
        assert((len + block - 1) as nat / block == q) by (nonlinear_arith)
            requires len == q * block, block > 0;
        if len == 0 {
            assert(q == 0) by (nonlinear_arith) requires len == q * block, block > 0, len == 0;
        }
    } else {
        assert((len + block - 1) as nat / block == q + 1) by (nonlinear_arith)
            requires len == q * block + r, 0 < r < block, block > 0;
        assert((q + 1) * block == q * block + block) by (nonlinear_arith);
        assert(q < len) by (nonlinear_arith)
            requires len == q * block + r, 0 < r < block, block > 0;
    }
}

} // verus!
