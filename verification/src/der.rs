//! The two DER structures the handshake reads and writes: `ECDSA-Sig-Value`
//! (RFC 3279 section 2.2.3), the encoding of ECDSA signatures in TLS
//! `CertificateVerify` messages and X.509 certificates, and `ECPrivateKey`
//! (RFC 5915 section 3).
//!
//! The decoders accept exactly the DER (X.690) encodings: definite lengths in
//! their shortest form, with at most four length octets; integers in their
//! shortest two's-complement form; no bytes after the outermost element.

use vstd::prelude::*;

use crate::byte_vec::ByteVec;
use crate::error::TlsError;

verus! {

/// `INTEGER`.
pub const TAG_INTEGER: u8 = 0x02;

/// `BIT STRING`.
pub const TAG_BIT_STRING: u8 = 0x03;

/// `OCTET STRING`.
pub const TAG_OCTET_STRING: u8 = 0x04;

/// `SEQUENCE`, constructed.
pub const TAG_SEQUENCE: u8 = 0x30;

/// `[0]`, context-specific and constructed.
pub const TAG_CONTEXT_0: u8 = 0xa0;

/// `[1]`, context-specific and constructed.
pub const TAG_CONTEXT_1: u8 = 0xa1;

/// The room an encoded ECDSA signature may take: two 48-byte integers, each
/// with a possible leading zero, plus headers.
pub const ECDSA_SIG_DER_MAX: usize = 104;

// ---------------------------------------------------------------------------
// Lengths
// ---------------------------------------------------------------------------

/// The unsigned big-endian value of `s`.
pub open spec fn be_value(s: Seq<u8>) -> nat
    decreases s.len(),
{
    if s.len() == 0 {
        0
    } else {
        be_value(s.drop_last()) * 256 + s.last() as nat
    }
}

/// The number of octets the long form of the length `n` uses (0 for the short form).
pub open spec fn length_octets(n: nat) -> nat {
    if n < 0x80 {
        0
    } else if n < 0x100 {
        1
    } else if n < 0x1_0000 {
        2
    } else if n < 0x100_0000 {
        3
    } else {
        4
    }
}

/// The `k` low-order bytes of `n`, big-endian.
pub open spec fn be_bytes(n: nat, k: nat) -> Seq<u8>
    decreases k,
{
    if k == 0 {
        Seq::empty()
    } else {
        be_bytes(n / 256, (k - 1) as nat).push((n % 256) as u8)
    }
}

/// The DER length octets of `n`.
pub open spec fn der_length(n: nat) -> Seq<u8> {
    if n < 0x80 {
        seq![n as u8]
    } else {
        seq![(0x80 + length_octets(n)) as u8] + be_bytes(n, length_octets(n))
    }
}

/// Reads DER length octets at the start of `s`: the length and how many octets
/// it took, or `None` when they are missing, indefinite, longer than four
/// octets or not in their shortest form.
pub open spec fn parse_length(s: Seq<u8>) -> Option<(nat, nat)> {
    if s.len() == 0 {
        None
    } else if s[0] < 0x80 {
        Some((s[0] as nat, 1))
    } else if 0x81 <= s[0] <= 0x84 {
        let k = (s[0] - 0x80) as nat;
        if s.len() < 1 + k {
            None
        } else {
            let v = be_value(s.subrange(1, 1 + k as int));
            if length_octets(v) == k {
                Some((v, 1 + k))
            } else {
                None
            }
        }
    } else {
        None
    }
}

/// Reads a tag-length-value element with the one-byte tag `tag` at the start of
/// `s`: the size of its header and of its content.
pub open spec fn parse_tlv(s: Seq<u8>, tag: u8) -> Option<(nat, nat)> {
    if s.len() == 0 || s[0] != tag {
        None
    } else {
        match parse_length(s.skip(1)) {
            Some((len, k)) => if 1 + k + len <= s.len() {
                Some(((1 + k) as nat, len))
            } else {
                None
            },
            None => None,
        }
    }
}

/// The DER element with tag `tag` and content `content`.
pub open spec fn der_tlv(tag: u8, content: Seq<u8>) -> Seq<u8> {
    seq![tag] + der_length(content.len()) + content
}

// ---------------------------------------------------------------------------
// Unsigned integers
// ---------------------------------------------------------------------------

/// `s` without its leading zero bytes, keeping the last byte.
pub open spec fn strip_leading_zeros(s: Seq<u8>) -> Seq<u8>
    decreases s.len(),
{
    if s.len() > 1 && s[0] == 0 {
        strip_leading_zeros(s.drop_first())
    } else {
        s
    }
}

/// The content octets of the `INTEGER` holding the unsigned big-endian value
/// `s`: its significant bytes, after a zero byte when the first of them has
/// its top bit set.
pub open spec fn uint_content(s: Seq<u8>) -> Seq<u8> {
    let t = strip_leading_zeros(s);
    if t.len() > 0 && t[0] >= 0x80 {
        seq![0u8] + t
    } else {
        t
    }
}

/// The significant bytes of the non-negative `INTEGER` with content octets `c`,
/// or `None` when `c` is empty, not in its shortest form or negative.
pub open spec fn uint_value(c: Seq<u8>) -> Option<Seq<u8>> {
    if c.len() == 0 {
        None
    } else if c.len() == 1 && c[0] == 0 {
        Some(c)
    } else if c[0] == 0 {
        if c[1] < 0x80 {
            None
        } else {
            Some(c.drop_first())
        }
    } else if c[0] >= 0x80 {
        None
    } else {
        Some(c)
    }
}

/// `v` left-padded with zeros to `n` bytes.
pub open spec fn left_pad(v: Seq<u8>, n: nat) -> Seq<u8> {
    Seq::new((n - v.len()) as nat, |i: int| 0u8) + v
}

// ---------------------------------------------------------------------------
// ECDSA-Sig-Value
// ---------------------------------------------------------------------------

/// `ECDSA-Sig-Value ::= SEQUENCE { r INTEGER, s INTEGER }` for the unsigned
/// big-endian integers `r` and `s`.
pub open spec fn ecdsa_sig_der(r: Seq<u8>, s: Seq<u8>) -> Seq<u8> {
    der_tlv(TAG_SEQUENCE, der_tlv(TAG_INTEGER, uint_content(r)) + der_tlv(TAG_INTEGER, uint_content(s)))
}

/// Decodes the whole of `der` as an `ECDSA-Sig-Value`: the significant bytes of
/// `r` and of `s`, or `None` when `der` is not exactly one such element.
pub open spec fn parse_ecdsa_sig(der: Seq<u8>) -> Option<(Seq<u8>, Seq<u8>)> {
    if der.len() > u32::MAX {
        None
    } else {
        match parse_tlv(der, TAG_SEQUENCE) {
            Some((h, l)) => if h + l != der.len() {
                None
            } else {
                let body = der.subrange(h as int, (h + l) as int);
                match parse_tlv(body, TAG_INTEGER) {
                    Some((h1, l1)) => {
                        let c1 = body.subrange(h1 as int, (h1 + l1) as int);
                        let rest = body.skip((h1 + l1) as int);
                        match parse_tlv(rest, TAG_INTEGER) {
                            Some((h2, l2)) => if h2 + l2 != rest.len() {
                                None
                            } else {
                                let c2 = rest.subrange(h2 as int, (h2 + l2) as int);
                                match (uint_value(c1), uint_value(c2)) {
                                    (Some(a), Some(b)) => Some((a, b)),
                                    _ => None,
                                }
                            },
                            None => None,
                        }
                    },
                    None => None,
                }
            },
            None => None,
        }
    }
}

// ---------------------------------------------------------------------------
// Exec: reading
// ---------------------------------------------------------------------------

/// Reads DER length octets at `buf[pos..end]`.
fn read_length(buf: &[u8], pos: usize, end: usize) -> (r: Option<(usize, usize)>)
    requires
        pos <= end <= buf@.len(),
    ensures
        r is None <==> parse_length(buf@.subrange(pos as int, end as int)) is None,
        r matches Some((v, k)) ==> parse_length(buf@.subrange(pos as int, end as int)) == Some((v as nat, k as nat)),
{
    let ghost s = buf@.subrange(pos as int, end as int);
    if pos >= end {
        return None;
    }
    let first = buf[pos];
    if first < 0x80 {
        return Some((first as usize, 1));
    }
    if first < 0x81 || first > 0x84 {
        return None;
    }
    let k: usize = (first - 0x80) as usize;
    if end - pos < 1 + k {
        return None;
    }
    let mut v: u64 = 0;
    let mut i: usize = 0;
    while i < k
        invariant
            1 <= k <= 4,
            i <= k,
            pos + 1 + k <= end <= buf@.len(),
            s == buf@.subrange(pos as int, end as int),
            v == be_value(s.subrange(1, 1 + i as int)),
            v < pow256(i as nat),
        decreases k - i,
    {
        proof {
            lemma_be_value_push(s.subrange(1, 1 + i as int), s[1 + i as int]);
            assert(s.subrange(1, 1 + i as int).push(s[1 + i as int]) =~= s.subrange(1, 1 + (i + 1) as int));
            lemma_pow256_step(i as nat);
            lemma_pow256_values();
            assert(v * 256 + 255 < pow256((i + 1) as nat)) by (nonlinear_arith)
                requires v < pow256(i as nat), pow256((i + 1) as nat) == pow256(i as nat) * 256;
        }
        v = v * 256 + buf[pos + 1 + i] as u64;
        i = i + 1;
    }
    proof {
        lemma_pow256_values();
        lemma_pow256_mono(k as nat, 4);
    }
    let ok = if k == 1 {
        v >= 0x80
    } else if k == 2 {
        v >= 0x100
    } else if k == 3 {
        v >= 0x1_0000
    } else {
        v >= 0x100_0000
    };
    proof {
        lemma_pow256_values();
        assert(v <= 0xffff_ffff);
    }
    if ok {
        Some((v as usize, 1 + k))
    } else {
        None
    }
}

/// `256^k`.
pub open spec fn pow256(k: nat) -> nat
    decreases k,
{
    if k == 0 {
        1
    } else {
        256 * pow256((k - 1) as nat)
    }
}

proof fn lemma_pow256_values()
    ensures
        pow256(0) == 1,
        pow256(1) == 0x100,
        pow256(2) == 0x1_0000,
        pow256(3) == 0x100_0000,
        pow256(4) == 0x1_0000_0000,
{
    reveal_with_fuel(pow256, 5);
}

proof fn lemma_pow256_step(k: nat)
    ensures
        pow256(k + 1) == pow256(k) * 256,
{
}

proof fn lemma_pow256_mono(a: nat, b: nat)
    requires
        a <= b,
    ensures
        pow256(a) <= pow256(b),
    decreases b,
{
    if a < b {
        lemma_pow256_mono(a, (b - 1) as nat);
        assert(pow256(b) == 256 * pow256((b - 1) as nat));
    }
}

proof fn lemma_be_value_push(s: Seq<u8>, b: u8)
    ensures
        be_value(s.push(b)) == be_value(s) * 256 + b,
{
    assert(s.push(b).drop_last() =~= s);
}

/// Reads an element with tag `tag` at `buf[pos..end]`: the size of its header
/// and of its content.
fn read_tlv(buf: &[u8], pos: usize, end: usize, tag: u8) -> (r: Option<(usize, usize)>)
    requires
        pos <= end <= buf@.len(),
    ensures
        r is None <==> parse_tlv(buf@.subrange(pos as int, end as int), tag) is None,
        r matches Some((h, l)) ==> parse_tlv(buf@.subrange(pos as int, end as int), tag) == Some((h as nat, l as nat)),
{
    let ghost s = buf@.subrange(pos as int, end as int);
    if pos >= end || buf[pos] != tag {
        return None;
    }
    assert(s.skip(1) =~= buf@.subrange(pos + 1, end as int));
    match read_length(buf, pos + 1, end) {
        Some((len, k)) => {
            assert(k <= s.len() - 1);
            if len <= end - pos - 1 - k {
                Some((1 + k, len))
            } else {
                None
            }
        },
        None => None,
    }
}

/// The significant bytes of the non-negative `INTEGER` whose content octets are
/// `buf[start..start + len]`, as a range of `buf`.
fn read_uint(buf: &[u8], start: usize, len: usize) -> (r: Option<(usize, usize)>)
    requires
        start + len <= buf@.len(),
    ensures
        match uint_value(buf@.subrange(start as int, start + len)) {
            Some(v) => r matches Some((a, b)) && start <= a <= b <= start + len
                && buf@.subrange(a as int, b as int) == v,
            None => r is None,
        },
{
    let ghost c = buf@.subrange(start as int, start + len);
    if len == 0 {
        return None;
    }
    let first = buf[start];
    if len == 1 && first == 0 {
        return Some((start, start + 1));
    }
    if first == 0 {
        if buf[start + 1] < 0x80 {
            None
        } else {
            assert(c.drop_first() =~= buf@.subrange(start + 1, start + len));
            Some((start + 1, start + len))
        }
    } else if first >= 0x80 {
        None
    } else {
        Some((start, start + len))
    }
}

/// Left-pad an unsigned integer into a fixed-size, big-endian array.
pub fn uint_to_array<const N: usize>(value: &[u8]) -> (r: Result<[u8; N], TlsError>)
    ensures
        r is Ok <==> value@.len() <= N,
        r matches Ok(a) ==> a@ == left_pad(value@, N as nat),
        r is Err ==> r == Err::<[u8; N], TlsError>(TlsError::DecodeError),
{
    if value.len() > N {
        return Err(TlsError::DecodeError);
    }
    let mut out = [0u8; N];
    let off = N - value.len();
    let mut i: usize = 0;
    while i < value.len()
        invariant
            off + value@.len() == N,
            i <= value@.len(),
            out@.len() == N,
            forall|j: int| 0 <= j < off ==> out@[j] == 0u8,
            forall|j: int| 0 <= j < i ==> out@[off + j] == value@[j],
        decreases value@.len() - i,
    {
        out[off + i] = value[i];
        i = i + 1;
    }
    assert(out@ =~= left_pad(value@, N as nat));
    Ok(out)
}

/// Locates the significant bytes of `r` and of `s` in the `ECDSA-Sig-Value` `der`.
fn read_ecdsa_sig(der: &[u8]) -> (res: Option<(usize, usize, usize, usize)>)
    ensures
        res is None <==> parse_ecdsa_sig(der@) is None,
        res matches Some((a0, a1, b0, b1)) ==> a0 <= a1 <= der@.len() && b0 <= b1 <= der@.len()
            && parse_ecdsa_sig(der@) == Some((der@.subrange(a0 as int, a1 as int), der@.subrange(b0 as int, b1 as int))),
{
    let n = der.len();
    if n > 0xffff_ffff {
        return None;
    }
    assert(der@.subrange(0, n as int) =~= der@);
    let (h, l) = match read_tlv(der, 0, n, TAG_SEQUENCE) {
        Some(x) => x,
        None => return None,
    };
    if h + l != n {
        return None;
    }
    let ghost body = der@.subrange(h as int, (h + l) as int);
    assert(body =~= der@.subrange(h as int, n as int));
    let (h1, l1) = match read_tlv(der, h, n, TAG_INTEGER) {
        Some(x) => x,
        None => return None,
    };
    let p2 = h + h1 + l1;
    assert(body.skip((h1 + l1) as int) =~= der@.subrange(p2 as int, n as int));
    let (h2, l2) = match read_tlv(der, p2, n, TAG_INTEGER) {
        Some(x) => x,
        None => return None,
    };
    if h2 + l2 != n - p2 {
        return None;
    }
    assert(body.subrange(h1 as int, (h1 + l1) as int) =~= der@.subrange(h + h1, h + h1 + l1));
    assert(der@.subrange(p2 as int, n as int).subrange(h2 as int, (h2 + l2) as int)
        =~= der@.subrange(p2 + h2, p2 + h2 + l2));
    let (a0, a1) = match read_uint(der, h + h1, l1) {
        Some(x) => x,
        None => return None,
    };
    let (b0, b1) = match read_uint(der, p2 + h2, l2) {
        Some(x) => x,
        None => return None,
    };
    Some((a0, a1, b0, b1))
}

/// Parse a DER `ECDSA-Sig-Value` into its `(r, s)` components, each left-padded
/// to `N` bytes.
pub fn ecdsa_signature_from_der<const N: usize>(der: &[u8]) -> (r: Result<([u8; N], [u8; N]), TlsError>)
    ensures
        r is Ok <==> (parse_ecdsa_sig(der@) matches Some((a, b)) && a.len() <= N && b.len() <= N),
        r matches Ok((x, y)) ==> (parse_ecdsa_sig(der@) matches Some((a, b)) && x@ == left_pad(a, N as nat)
            && y@ == left_pad(b, N as nat)),
        r is Err ==> r == Err::<([u8; N], [u8; N]), TlsError>(TlsError::DecodeError),
{
    let (a0, a1, b0, b1) = match read_ecdsa_sig(der) {
        Some(x) => x,
        None => return Err(TlsError::DecodeError),
    };
    let r = uint_to_array::<N>(&der[a0..a1])?;
    let s = uint_to_array::<N>(&der[b0..b1])?;
    Ok((r, s))
}

// ---------------------------------------------------------------------------
// Exec: writing
// ---------------------------------------------------------------------------

/// The position of the first significant byte of `s` (the last byte when all are zero).
fn significant_start(s: &[u8]) -> (r: usize)
    ensures
        r <= s@.len(),
        s@.len() > 0 ==> r < s@.len(),
        s@.skip(r as int) == strip_leading_zeros(s@),
{
    if s.len() == 0 {
        return 0;
    }
    let mut i: usize = 0;
    assert(s@.skip(0) =~= s@);
    while i < s.len() - 1 && s[i] == 0
        invariant
            s@.len() > 0,
            i < s@.len(),
            strip_leading_zeros(s@.skip(i as int)) == strip_leading_zeros(s@),
        decreases s@.len() - i,
    {
        assert(s@.skip(i as int).drop_first() =~= s@.skip(i + 1));
        i = i + 1;
    }
    proof {
        let t = s@.skip(i as int);
        if !(t.len() > 1 && t[0] == 0) {
            assert(strip_leading_zeros(t) == t);
        }
    }
    i
}

/// Appends the `INTEGER` element holding the unsigned value `v` (already
/// stripped of leading zeros) to `out`.
fn push_uint(out: &mut Vec<u8>, v: &[u8])
    requires
        v@ == strip_leading_zeros(v@),
        uint_content(v@).len() < 0x80,
    ensures
        final(out)@ == old(out)@ + der_tlv(TAG_INTEGER, uint_content(v@)),
{
    let ghost c = uint_content(v@);
    let pad = v.len() > 0 && v[0] >= 0x80;
    let clen = if pad { v.len() + 1 } else { v.len() };
    out.push(TAG_INTEGER);
    out.push(clen as u8);
    if pad {
        out.push(0u8);
    }
    let ghost start = out@;
    let mut i: usize = 0;
    while i < v.len()
        invariant
            i <= v@.len(),
            out@ == start + v@.take(i as int),
        decreases v@.len() - i,
    {
        out.push(v[i]);
        i = i + 1;
        assert(out@ =~= start + v@.take(i as int));
    }
    assert(v@.take(v@.len() as int) =~= v@);
    assert(c.len() == clen);
    assert(der_length(c.len()) =~= seq![clen as u8]);
    assert(final(out)@ =~= old(out)@ + der_tlv(TAG_INTEGER, c));
}

/// The content length of the `INTEGER` holding `v`, stripped of leading zeros.
fn uint_content_len(v: &[u8]) -> (r: usize)
    requires
        v@ == strip_leading_zeros(v@),
        v@.len() < usize::MAX,
    ensures
        r == uint_content(v@).len(),
{
    if v.len() > 0 && v[0] >= 0x80 {
        v.len() + 1
    } else {
        v.len()
    }
}

/// `ecdsa_sig_der(r, s)`, when it takes at most [`ECDSA_SIG_DER_MAX`] bytes.
fn encode_ecdsa_sig(r: &[u8], s: &[u8]) -> (res: Option<Vec<u8>>)
    ensures
        res is Some <==> ecdsa_sig_der(r@, s@).len() <= ECDSA_SIG_DER_MAX,
        res matches Some(e) ==> e@ == ecdsa_sig_der(r@, s@),
{
    let rs = significant_start(r);
    let ss = significant_start(s);
    let rv = &r[rs..r.len()];
    let sv = &s[ss..s.len()];
    proof {
        lemma_strip_idempotent(r@);
        lemma_strip_idempotent(s@);
    }
    let ghost rc = uint_content(r@);
    let ghost sc = uint_content(s@);
    let ghost body = der_tlv(TAG_INTEGER, rc) + der_tlv(TAG_INTEGER, sc);
    proof {
        lemma_der_tlv_len(TAG_INTEGER, rc);
        lemma_der_tlv_len(TAG_INTEGER, sc);
        lemma_der_tlv_len(TAG_SEQUENCE, body);
        assert(rc.len() >= rv@.len());
        assert(sc.len() >= sv@.len());
    }
    if rv.len() > 100 || sv.len() > 100 {
        return None;
    }
    let rlen = uint_content_len(rv);
    let slen = uint_content_len(sv);
    if 4 + rlen + slen > 102 {
        return None;
    }
    let body_len = 4 + rlen + slen;
    let mut encoded: Vec<u8> = Vec::new();
    encoded.push(TAG_SEQUENCE);
    encoded.push(body_len as u8);
    proof {
        assert(body.len() == body_len);
        assert(der_length(body.len()) =~= seq![body_len as u8]);
        assert(encoded@ =~= seq![TAG_SEQUENCE] + der_length(body.len()));
    }
    push_uint(&mut encoded, rv);
    push_uint(&mut encoded, sv);
    assert(encoded@ =~= ecdsa_sig_der(r@, s@));
    Some(encoded)
}

/// Encode an ECDSA signature `(r, s)` as a DER `ECDSA-Sig-Value`.
///
/// The encoding must fit in [`ECDSA_SIG_DER_MAX`] bytes; when it does, `out`
/// is cleared and then receives it, if it fits there too.
pub fn ecdsa_signature_to_der<const N: usize>(r: &[u8], s: &[u8], out: &mut ByteVec<N>) -> (res: Result<(), TlsError>)
    ensures
        res is Ok <==> ecdsa_sig_der(r@, s@).len() <= ECDSA_SIG_DER_MAX && ecdsa_sig_der(r@, s@).len() <= N,
        res is Ok ==> final(out)@ == ecdsa_sig_der(r@, s@),
        res is Err ==> res == Err::<(), TlsError>(TlsError::EncodeError),
        res is Err && ecdsa_sig_der(r@, s@).len() <= ECDSA_SIG_DER_MAX ==> final(out)@ == Seq::<u8>::empty(),
        ecdsa_sig_der(r@, s@).len() > ECDSA_SIG_DER_MAX ==> final(out)@ == old(out)@,
{
    let encoded = match encode_ecdsa_sig(r, s) {
        Some(e) => e,
        None => return Err(TlsError::EncodeError),
    };
    out.clear();
    match out.extend_from_slice(encoded.as_slice()) {
        Ok(()) => Ok(()),
        Err(_) => Err(TlsError::EncodeError),
    }
}

proof fn lemma_strip_idempotent(s: Seq<u8>)
    ensures
        strip_leading_zeros(strip_leading_zeros(s)) == strip_leading_zeros(s),
        s.len() > 0 ==> strip_leading_zeros(s).len() > 0,
        strip_leading_zeros(s).len() <= s.len(),
    decreases s.len(),
{
    if s.len() > 1 && s[0] == 0 {
        lemma_strip_idempotent(s.drop_first());
    }
}

/// The size of an element.
proof fn lemma_der_tlv_len(tag: u8, content: Seq<u8>)
    ensures
        content.len() < 0x80 ==> der_tlv(tag, content).len() == 2 + content.len(),
        der_tlv(tag, content).len() >= 2 + content.len(),
{
    if content.len() >= 0x80 {
        assert(der_length(content.len()).len() >= 1);
    }
}

// ---------------------------------------------------------------------------
// ECPrivateKey
// ---------------------------------------------------------------------------

/// Whether `b` is an identifier octet of a universal tag that DER readers know.
pub open spec fn known_universal_tag(b: u8) -> bool {
    (0x01 <= b <= 0x06) || b == 0x09 || b == 0x0a || b == 0x0c || b == 0x0d
        || (0x12 <= b <= 0x18) || b == 0x1a || b == 0x1b || b == 0x1e || b == 0x30 || b == 0x31
}

/// Reads the subsequent octets of a high tag number, starting at `s[i]` with the
/// number `acc` read so far: how many octets it takes, or `None` when the number
/// is below 31, starts with a zero septet, needs more than 25 bits or has no
/// final octet within five.
pub open spec fn parse_tag_number(s: Seq<u8>, i: nat, acc: nat) -> Option<nat>
    decreases 5 - i,
{
    if i >= 5 || s.len() <= i {
        None
    } else {
        let b = s[i as int];
        let acc2 = acc + (b % 128) as nat;
        if b < 128 {
            if acc2 < 31 {
                None
            } else {
                Some(i + 1)
            }
        } else if i == 0 && acc2 == 0 {
            None
        } else if acc2 >= 0x200_0000 {
            None
        } else {
            parse_tag_number(s, i + 1, acc2 * 128)
        }
    }
}

/// Reads the identifier octets at the start of `s`: how many there are, or
/// `None` when they do not form a tag.
pub open spec fn parse_tag(s: Seq<u8>) -> Option<nat> {
    if s.len() == 0 {
        None
    } else if s[0] < 0x40 {
        if known_universal_tag(s[0]) {
            Some(1)
        } else {
            None
        }
    } else if s[0] % 32 != 31 {
        Some(1)
    } else {
        match parse_tag_number(s.skip(1), 0, 0) {
            Some(n) => Some(1 + n),
            None => None,
        }
    }
}

/// Reads one element of any type at the start of `s`: its size.
pub open spec fn parse_any(s: Seq<u8>) -> Option<nat> {
    match parse_tag(s) {
        Some(t) => match parse_length(s.skip(t as int)) {
            Some((l, k)) => if t + k + l <= s.len() {
                Some(t + k + l)
            } else {
                None
            },
            None => None,
        },
        None => None,
    }
}

/// Whether `c` is the content of a `BIT STRING`: an unused-bit count of at most
/// seven (zero when there are no bits), then the bits.
pub open spec fn bit_string_content_ok(c: Seq<u8>) -> bool {
    &&& c.len() >= 1
    &&& c[0] <= 7
    &&& c[0] != 0 ==> c.len() >= 2
    &&& (c.len() - 1) * 8 <= usize::MAX
}

/// Reads the optional `[0] EXPLICIT ANY` field at the start of `s`: how many
/// bytes it takes (zero when absent), or `None` when it is malformed.
pub open spec fn parse_opt_parameters(s: Seq<u8>) -> Option<nat> {
    if s.len() > 0 && s[0] == 0x80 {
        None
    } else if s.len() > 0 && s[0] == TAG_CONTEXT_0 {
        match parse_tlv(s, TAG_CONTEXT_0) {
            Some((h, l)) => if parse_any(s.subrange(h as int, (h + l) as int)) == Some(l) {
                Some(h + l)
            } else {
                None
            },
            None => None,
        }
    } else {
        Some(0)
    }
}

/// Reads the optional `[1] EXPLICIT BIT STRING` field at the start of `s`: how
/// many bytes it takes (zero when absent), or `None` when it is malformed.
pub open spec fn parse_opt_public_key(s: Seq<u8>) -> Option<nat> {
    if s.len() > 0 && s[0] == 0x81 {
        None
    } else if s.len() > 0 && s[0] == TAG_CONTEXT_1 {
        match parse_tlv(s, TAG_CONTEXT_1) {
            Some((h, l)) => {
                let inner = s.subrange(h as int, (h + l) as int);
                match parse_tlv(inner, TAG_BIT_STRING) {
                    Some((h2, l2)) => if h2 + l2 == l && bit_string_content_ok(
                        inner.subrange(h2 as int, (h2 + l2) as int),
                    ) {
                        Some(h + l)
                    } else {
                        None
                    },
                    None => None,
                }
            },
            None => None,
        }
    } else {
        Some(0)
    }
}

/// Decodes the whole of `der` as a SEC1 `ECPrivateKey` of version 1:
///
/// ```text
/// ECPrivateKey ::= SEQUENCE {
///   version        INTEGER { ecPrivkeyVer1(1) },
///   privateKey     OCTET STRING,
///   parameters [0] EXPLICIT ANY OPTIONAL,
///   publicKey  [1] EXPLICIT BIT STRING OPTIONAL }
/// ```
///
/// and returns the private key octets, or `None` when `der` is not exactly one
/// such element.
pub open spec fn parse_ec_private_key(der: Seq<u8>) -> Option<Seq<u8>> {
    if der.len() > u32::MAX {
        None
    } else {
        match parse_tlv(der, TAG_SEQUENCE) {
            Some((h, l)) => if h + l != der.len() {
                None
            } else {
                parse_ec_private_key_fields(der.subrange(h as int, (h + l) as int))
            },
            None => None,
        }
    }
}

/// Decodes the whole of `body` as the fields of an `ECPrivateKey` of version 1
/// and returns the private key octets.
pub open spec fn parse_ec_private_key_fields(body: Seq<u8>) -> Option<Seq<u8>> {
    match parse_tlv(body, TAG_INTEGER) {
        Some((h1, l1)) => if body.subrange(h1 as int, (h1 + l1) as int) != seq![1u8] {
            None
        } else {
            parse_ec_private_key_tail(body.skip((h1 + l1) as int))
        },
        None => None,
    }
}

/// Decodes the whole of `rest` as the fields of an `ECPrivateKey` after its
/// version and returns the private key octets.
pub open spec fn parse_ec_private_key_tail(rest: Seq<u8>) -> Option<Seq<u8>> {
    match parse_tlv(rest, TAG_OCTET_STRING) {
        Some((h, l)) => {
            let key = rest.subrange(h as int, (h + l) as int);
            let rest2 = rest.skip((h + l) as int);
            match parse_opt_parameters(rest2) {
                Some(n3) => {
                    let rest3 = rest2.skip(n3 as int);
                    match parse_opt_public_key(rest3) {
                        Some(n4) => if n4 == rest3.len() {
                            Some(key)
                        } else {
                            None
                        },
                        None => None,
                    }
                },
                None => None,
            }
        },
        None => None,
    }
}

/// Reads the identifier octets at `buf[pos..end]`.
fn read_tag(buf: &[u8], pos: usize, end: usize) -> (r: Option<usize>)
    requires
        pos <= end <= buf@.len(),
    ensures
        r is None <==> parse_tag(buf@.subrange(pos as int, end as int)) is None,
        r matches Some(t) ==> parse_tag(buf@.subrange(pos as int, end as int)) == Some(t as nat)
            && 1 <= t <= end - pos,
{
    let ghost s = buf@.subrange(pos as int, end as int);
    if pos >= end {
        return None;
    }
    let b = buf[pos];
    if b < 0x40 {
        let known = (0x01 <= b && b <= 0x06) || b == 0x09 || b == 0x0a || b == 0x0c || b == 0x0d
            || (0x12 <= b && b <= 0x18) || b == 0x1a || b == 0x1b || b == 0x1e || b == 0x30 || b == 0x31;
        return if known { Some(1) } else { None };
    }
    if b % 32 != 31 {
        return Some(1);
    }
    let ghost t = s.skip(1);
    assert(t =~= buf@.subrange(pos + 1, end as int));
    let mut i: usize = 0;
    let mut acc: u64 = 0;
    while i < 5
        invariant
            pos < end <= buf@.len(),
            s == buf@.subrange(pos as int, end as int),
            s.len() > 0,
            s[0] >= 0x40,
            s[0] % 32 == 31,
            t == s.skip(1),
            t == buf@.subrange(pos + 1, end as int),
            i <= 5,
            acc < 0x200_0000 * 128,
            parse_tag_number(t, 0, 0) == parse_tag_number(t, i as nat, acc as nat),
        decreases 5 - i,
    {
        if end - pos - 1 <= i {
            assert(t.len() <= i);
            return None;
        }
        let byte = buf[pos + 1 + i];
        assert(t[i as int] == byte);
        let acc2 = acc + (byte % 128) as u64;
        if byte < 128 {
            if acc2 < 31 {
                return None;
            }
            return Some(1 + i + 1);
        }
        if i == 0 && acc2 == 0 {
            return None;
        }
        if acc2 >= 0x200_0000 {
            return None;
        }
        acc = acc2 * 128;
        i = i + 1;
    }
    None
}

/// Reads one element of any type at `buf[pos..end]`: its size.
fn read_any(buf: &[u8], pos: usize, end: usize) -> (r: Option<usize>)
    requires
        pos <= end <= buf@.len(),
    ensures
        r is None <==> parse_any(buf@.subrange(pos as int, end as int)) is None,
        r matches Some(n) ==> parse_any(buf@.subrange(pos as int, end as int)) == Some(n as nat),
{
    let ghost s = buf@.subrange(pos as int, end as int);
    let t = match read_tag(buf, pos, end) {
        Some(t) => t,
        None => return None,
    };
    assert(s.skip(t as int) =~= buf@.subrange((pos + t) as int, end as int));
    match read_length(buf, pos + t, end) {
        Some((l, k)) => {
            if l <= end - pos - t - k {
                Some(t + k + l)
            } else {
                None
            }
        },
        None => None,
    }
}

/// Reads the optional `[0]` field at `buf[pos..end]`.
fn read_opt_parameters(buf: &[u8], pos: usize, end: usize) -> (r: Option<usize>)
    requires
        pos <= end <= buf@.len(),
    ensures
        r is None <==> parse_opt_parameters(buf@.subrange(pos as int, end as int)) is None,
        r matches Some(n) ==> parse_opt_parameters(buf@.subrange(pos as int, end as int)) == Some(n as nat),
{
    let ghost s = buf@.subrange(pos as int, end as int);
    if pos < end && buf[pos] == 0x80 {
        return None;
    }
    if pos < end && buf[pos] == TAG_CONTEXT_0 {
        let (h, l) = match read_tlv(buf, pos, end, TAG_CONTEXT_0) {
            Some(x) => x,
            None => return None,
        };
        assert(s.subrange(h as int, (h + l) as int) =~= buf@.subrange(pos + h, pos + h + l));
        match read_any(buf, pos + h, pos + h + l) {
            Some(n) => if n == l {
                Some(h + l)
            } else {
                None
            },
            None => None,
        }
    } else {
        Some(0)
    }
}

/// Reads the optional `[1]` field at `buf[pos..end]`.
fn read_opt_public_key(buf: &[u8], pos: usize, end: usize) -> (r: Option<usize>)
    requires
        pos <= end <= buf@.len(),
    ensures
        r is None <==> parse_opt_public_key(buf@.subrange(pos as int, end as int)) is None,
        r matches Some(n) ==> parse_opt_public_key(buf@.subrange(pos as int, end as int)) == Some(n as nat),
{
    let ghost s = buf@.subrange(pos as int, end as int);
    if pos < end && buf[pos] == 0x81 {
        return None;
    }
    if pos < end && buf[pos] == TAG_CONTEXT_1 {
        let (h, l) = match read_tlv(buf, pos, end, TAG_CONTEXT_1) {
            Some(x) => x,
            None => return None,
        };
        let ghost inner = s.subrange(h as int, (h + l) as int);
        assert(inner =~= buf@.subrange(pos + h, pos + h + l));
        let (h2, l2) = match read_tlv(buf, pos + h, pos + h + l, TAG_BIT_STRING) {
            Some(x) => x,
            None => return None,
        };
        if h2 + l2 != l {
            return None;
        }
        let c = pos + h + h2;
        assert(inner.subrange(h2 as int, (h2 + l2) as int) =~= buf@.subrange(c as int, c + l2));
        if l2 < 1 {
            return None;
        }
        let unused = buf[c];
        if unused > 7 || (unused != 0 && l2 < 2) || (l2 - 1) > usize::MAX / 8 {
            return None;
        }
        Some(h + l)
    } else {
        Some(0)
    }
}

/// Locates the private key octets in the `ECPrivateKey` fields after the
/// version at `buf[pos..end]`.
fn read_ec_private_key_tail(buf: &[u8], pos: usize, end: usize) -> (r: Option<(usize, usize)>)
    requires
        pos <= end <= buf@.len(),
    ensures
        r is None <==> parse_ec_private_key_tail(buf@.subrange(pos as int, end as int)) is None,
        r matches Some((k0, k1)) ==> pos <= k0 <= k1 <= end
            && parse_ec_private_key_tail(buf@.subrange(pos as int, end as int))
                == Some(buf@.subrange(k0 as int, k1 as int)),
{
    let ghost rest1 = buf@.subrange(pos as int, end as int);
    let (h2, l2) = match read_tlv(buf, pos, end, TAG_OCTET_STRING) {
        Some(x) => x,
        None => return None,
    };
    let k0 = pos + h2;
    let k1 = k0 + l2;
    assert(rest1.subrange(h2 as int, (h2 + l2) as int) =~= buf@.subrange(k0 as int, k1 as int));
    let ghost rest2 = rest1.skip((h2 + l2) as int);
    assert(rest2 =~= buf@.subrange(k1 as int, end as int));
    let n3 = match read_opt_parameters(buf, k1, end) {
        Some(x) => x,
        None => return None,
    };
    let p3 = k1 + n3;
    let ghost rest3 = rest2.skip(n3 as int);
    assert(rest3 =~= buf@.subrange(p3 as int, end as int));
    let n4 = match read_opt_public_key(buf, p3, end) {
        Some(x) => x,
        None => return None,
    };
    if n4 != end - p3 {
        return None;
    }
    Some((k0, k1))
}

/// Locates the private key octets in the `ECPrivateKey` fields at `buf[pos..end]`.
fn read_ec_private_key_fields(buf: &[u8], pos: usize, end: usize) -> (r: Option<(usize, usize)>)
    requires
        pos <= end <= buf@.len(),
    ensures
        r is None <==> parse_ec_private_key_fields(buf@.subrange(pos as int, end as int)) is None,
        r matches Some((k0, k1)) ==> pos <= k0 <= k1 <= end
            && parse_ec_private_key_fields(buf@.subrange(pos as int, end as int))
                == Some(buf@.subrange(k0 as int, k1 as int)),
{
    let ghost body = buf@.subrange(pos as int, end as int);
    let (h1, l1) = match read_tlv(buf, pos, end, TAG_INTEGER) {
        Some(x) => x,
        None => return None,
    };
    let v = pos + h1;
    assert(body.subrange(h1 as int, (h1 + l1) as int) =~= buf@.subrange(v as int, v + l1));
    if l1 != 1 || buf[v] != 1 {
        proof {
            if l1 == 1 {
                assert(buf@.subrange(v as int, v + l1)[0] != 1u8);
            }
        }
        return None;
    }
    assert(buf@.subrange(v as int, v + l1) =~= seq![1u8]);
    let p1 = v + l1;
    assert(body.skip((h1 + l1) as int) =~= buf@.subrange(p1 as int, end as int));
    read_ec_private_key_tail(buf, p1, end)
}

/// Parse a SEC1 `ECPrivateKey` and return the raw private scalar.
pub fn sec1_private_key(der: &[u8]) -> (r: Result<&[u8], TlsError>)
    ensures
        r is Ok <==> parse_ec_private_key(der@) is Some,
        r matches Ok(k) ==> parse_ec_private_key(der@) == Some(k@),
        r is Err ==> r == Err::<&[u8], TlsError>(TlsError::DecodeError),
{
    let n = der.len();
    if n > 0xffff_ffff {
        return Err(TlsError::DecodeError);
    }
    assert(der@.subrange(0, n as int) =~= der@);
    let (h, l) = match read_tlv(der, 0, n, TAG_SEQUENCE) {
        Some(x) => x,
        None => return Err(TlsError::DecodeError),
    };
    if h + l != n {
        return Err(TlsError::DecodeError);
    }
    assert(der@.subrange(h as int, (h + l) as int) =~= der@.subrange(h as int, n as int));
    match read_ec_private_key_fields(der, h, n) {
        Some((k0, k1)) => Ok(&der[k0..k1]),
        None => Err(TlsError::DecodeError),
    }
}

// ---------------------------------------------------------------------------
// Laws
// ---------------------------------------------------------------------------

/// Short lengths are read back from their encoding.
proof fn lemma_parse_short_length(n: nat, rest: Seq<u8>)
    requires
        n < 0x80,
    ensures
        parse_length(der_length(n) + rest) == Some((n, 1nat)),
{
    assert((der_length(n) + rest)[0] == n as u8);
}

/// An element with short content is read back from its encoding.
proof fn lemma_parse_short_tlv(tag: u8, content: Seq<u8>, rest: Seq<u8>)
    requires
        content.len() < 0x80,
    ensures
        parse_tlv(der_tlv(tag, content) + rest, tag) == Some((2nat, content.len())),
        (der_tlv(tag, content) + rest).subrange(2, 2 + content.len() as int) == content,
        (der_tlv(tag, content) + rest).skip(2 + content.len() as int) == rest,
{
    let e = der_tlv(tag, content) + rest;
    assert(e.skip(1) =~= der_length(content.len()) + (content + rest));
    lemma_parse_short_length(content.len(), content + rest);
    assert(e.subrange(2, 2 + content.len() as int) =~= content);
    assert(e.skip(2 + content.len() as int) =~= rest);
}

/// The content octets of an integer are read back as its significant bytes.
proof fn lemma_uint_roundtrip(v: Seq<u8>)
    requires
        v.len() > 0,
    ensures
        uint_value(uint_content(v)) == Some(strip_leading_zeros(v)),
{
    lemma_strip_idempotent(v);
    let t = strip_leading_zeros(v);
    lemma_strip_shape(v);
    if t.len() > 0 && t[0] >= 0x80 {
        assert((seq![0u8] + t).drop_first() =~= t);
    }
}

/// A stripped value starts with a non-zero byte unless it is a single zero.
proof fn lemma_strip_shape(s: Seq<u8>)
    ensures
        strip_leading_zeros(s).len() > 1 ==> strip_leading_zeros(s)[0] != 0,
    decreases s.len(),
{
    if s.len() > 1 && s[0] == 0 {
        lemma_strip_shape(s.drop_first());
    }
}

/// Decoding what [`ecdsa_signature_to_der`] writes gives back the significant
/// bytes of `r` and `s`: the encoder and the decoder agree on every signature
/// the encoder accepts.
pub proof fn lemma_ecdsa_sig_roundtrip(r: Seq<u8>, s: Seq<u8>)
    requires
        r.len() > 0,
        s.len() > 0,
        ecdsa_sig_der(r, s).len() <= ECDSA_SIG_DER_MAX,
    ensures
        parse_ecdsa_sig(ecdsa_sig_der(r, s)) == Some((strip_leading_zeros(r), strip_leading_zeros(s))),
{
    let rc = uint_content(r);
    let sc = uint_content(s);
    let t1 = der_tlv(TAG_INTEGER, rc);
    let t2 = der_tlv(TAG_INTEGER, sc);
    let body = t1 + t2;
    let der = ecdsa_sig_der(r, s);
    lemma_der_tlv_len(TAG_INTEGER, rc);
    lemma_der_tlv_len(TAG_INTEGER, sc);
    lemma_der_tlv_len(TAG_SEQUENCE, body);
    assert(body.len() < 0x80);
    lemma_parse_short_tlv(TAG_SEQUENCE, body, Seq::empty());
    assert(der + Seq::<u8>::empty() =~= der);
    assert(der.subrange(2, 2 + body.len() as int) == body);
    lemma_parse_short_tlv(TAG_INTEGER, rc, t2);
    lemma_parse_short_tlv(TAG_INTEGER, sc, Seq::empty());
    assert(t2 + Seq::<u8>::empty() =~= t2);
    assert(body.skip(2 + rc.len() as int) == t2);
    lemma_uint_roundtrip(r);
    lemma_uint_roundtrip(s);
}

/// Left-padding the significant bytes of an `n`-byte integer back to `n` bytes
/// gives back the integer.
pub proof fn lemma_left_pad_strip(v: Seq<u8>, n: nat)
    requires
        v.len() == n,
    ensures
        strip_leading_zeros(v).len() <= n,
        left_pad(strip_leading_zeros(v), n) == v,
    decreases v.len(),
{
    if v.len() > 1 && v[0] == 0 {
        lemma_left_pad_strip(v.drop_first(), (n - 1) as nat);
        let t = strip_leading_zeros(v);
        assert(left_pad(t, n) =~= seq![0u8] + left_pad(t, (n - 1) as nat));
        assert(seq![0u8] + v.drop_first() =~= v);
    } else {
        assert(left_pad(v, n) =~= v);
    }
}

/// A fixed-size signature survives encoding then decoding unchanged: for
/// `n`-byte `r` and `s` whose encoding fits, decoding it and left-padding each
/// integer to `n` bytes gives back `r` and `s`.
pub proof fn lemma_ecdsa_sig_fixed_roundtrip(r: Seq<u8>, s: Seq<u8>, n: nat)
    requires
        n > 0,
        r.len() == n,
        s.len() == n,
        ecdsa_sig_der(r, s).len() <= ECDSA_SIG_DER_MAX,
    ensures
        parse_ecdsa_sig(ecdsa_sig_der(r, s)) matches Some((a, b)) && a.len() <= n && b.len() <= n
            && left_pad(a, n) == r && left_pad(b, n) == s,
{
    lemma_ecdsa_sig_roundtrip(r, s);
    lemma_left_pad_strip(r, n);
    lemma_left_pad_strip(s, n);
}

/// The big-endian bytes of the value of `x` are `x`.
proof fn lemma_be_bytes_value(x: Seq<u8>)
    ensures
        be_bytes(be_value(x), x.len()) == x,
    decreases x.len(),
{
    if x.len() > 0 {
        let a = be_value(x.drop_last());
        let b = x.last();
        assert((a * 256 + b) / 256 == a) by (nonlinear_arith) requires b < 256;
        assert((a * 256 + b) % 256 == b) by (nonlinear_arith) requires b < 256;
        lemma_be_bytes_value(x.drop_last());
        assert(x.drop_last().push(x.last()) =~= x);
    }
}

/// What [`parse_length`] accepts is the DER length octets of what it reads.
proof fn lemma_parse_length_canonical(s: Seq<u8>)
    requires
        parse_length(s) is Some,
    ensures
        parse_length(s) matches Some((v, k)) && s.take(k as int) == der_length(v),
{
    if s[0] < 0x80 {
        assert(s.take(1) =~= seq![s[0]]);
    } else {
        let k = (s[0] - 0x80) as nat;
        let x = s.subrange(1, 1 + k as int);
        lemma_be_bytes_value(x);
        assert(s.take(1 + k as int) =~= seq![s[0]] + x);
    }
}

/// What [`parse_tlv`] accepts is an element in DER.
proof fn lemma_parse_tlv_canonical(s: Seq<u8>, tag: u8)
    requires
        parse_tlv(s, tag) is Some,
    ensures
        parse_tlv(s, tag) matches Some((h, l))
            && s.take((h + l) as int) == der_tlv(tag, s.subrange(h as int, (h + l) as int)),
{
    lemma_parse_length_canonical(s.skip(1));
    let (h, l) = parse_tlv(s, tag).unwrap();
    let k = (h - 1) as nat;
    assert(s.skip(1).take(k as int) =~= s.subrange(1, h as int));
    assert(s.take((h + l) as int) =~= seq![tag] + s.subrange(1, h as int) + s.subrange(h as int, (h + l) as int));
}

/// The significant bytes read from content octets encode back to them.
proof fn lemma_uint_value_canonical(c: Seq<u8>)
    requires
        uint_value(c) is Some,
    ensures
        uint_content(uint_value(c).unwrap()) == c,
{
    let v = uint_value(c).unwrap();
    if c.len() == 1 && c[0] == 0 {
        assert(strip_leading_zeros(v) == v);
    } else if c[0] == 0 {
        assert(strip_leading_zeros(v) == v);
        assert(seq![0u8] + v =~= c);
    } else {
        assert(strip_leading_zeros(v) == v);
    }
}

/// The decoder accepts nothing but the DER encoding of what it returns: every
/// accepted input is exactly `ecdsa_sig_der` of the decoded integers, so no
/// trailing bytes, long-form lengths or padded integers get through.
#[verifier::rlimit(50)]
pub proof fn lemma_ecdsa_sig_canonical(der: Seq<u8>)
    requires
        parse_ecdsa_sig(der) is Some,
    ensures
        parse_ecdsa_sig(der) matches Some((a, b)) && der == ecdsa_sig_der(a, b),
{
    let (h, l) = parse_tlv(der, TAG_SEQUENCE).unwrap();
    let body = der.subrange(h as int, (h + l) as int);
    let (h1, l1) = parse_tlv(body, TAG_INTEGER).unwrap();
    let c1 = body.subrange(h1 as int, (h1 + l1) as int);
    let rest = body.skip((h1 + l1) as int);
    let (h2, l2) = parse_tlv(rest, TAG_INTEGER).unwrap();
    let c2 = rest.subrange(h2 as int, (h2 + l2) as int);
    lemma_parse_tlv_canonical(der, TAG_SEQUENCE);
    lemma_parse_tlv_canonical(body, TAG_INTEGER);
    lemma_parse_tlv_canonical(rest, TAG_INTEGER);
    lemma_uint_value_canonical(c1);
    lemma_uint_value_canonical(c2);
    assert(der.take((h + l) as int) =~= der);
    assert(rest.take((h2 + l2) as int) =~= rest);
    assert(body =~= body.take((h1 + l1) as int) + rest);
}

/// Two integers of at most 48 bytes (the scalars of P-256 and P-384) always
/// encode within [`ECDSA_SIG_DER_MAX`] bytes.
pub proof fn lemma_ecdsa_sig_len(r: Seq<u8>, s: Seq<u8>)
    requires
        r.len() <= 48,
        s.len() <= 48,
    ensures
        ecdsa_sig_der(r, s).len() <= ECDSA_SIG_DER_MAX,
{
    lemma_strip_idempotent(r);
    lemma_strip_idempotent(s);
    let rc = uint_content(r);
    let sc = uint_content(s);
    lemma_der_tlv_len(TAG_INTEGER, rc);
    lemma_der_tlv_len(TAG_INTEGER, sc);
    let body = der_tlv(TAG_INTEGER, rc) + der_tlv(TAG_INTEGER, sc);
    lemma_der_tlv_len(TAG_SEQUENCE, body);
}

} // verus!
