//! The cipher suites and the `ServerHello` extensions this client understands
//! (RFC 8446 sections 4.1.3, 4.2 and B.4).

use vstd::prelude::*;

use crate::error::{ParseError, TlsError};
use crate::parse_buffer::ParseBuffer;

verus! {

/// The big-endian `u16` at the start of `s`.
pub open spec fn be16(s: Seq<u8>) -> u16 {
    (s[0] as int * 256 + s[1] as int) as u16
}

/// A TLS 1.3 cipher suite.
#[derive(Debug, Clone, Copy, PartialEq, Eq, Structural)]
pub enum CipherSuite {
    TlsAes128GcmSha256,
    TlsAes256GcmSha384,
    TlsChacha20Poly1305Sha256,
    TlsAes128CcmSha256,
    TlsAes128Ccm8Sha256,
    TlsPskAes128GcmSha256,
}

/// The cipher suite with the code point `code`, if this library knows it.
pub open spec fn cipher_suite_of(code: u16) -> Option<CipherSuite> {
    if code == 0x1301 {
        Some(CipherSuite::TlsAes128GcmSha256)
    } else if code == 0x1302 {
        Some(CipherSuite::TlsAes256GcmSha384)
    } else if code == 0x1303 {
        Some(CipherSuite::TlsChacha20Poly1305Sha256)
    } else if code == 0x1304 {
        Some(CipherSuite::TlsAes128CcmSha256)
    } else if code == 0x1305 {
        Some(CipherSuite::TlsAes128Ccm8Sha256)
    } else if code == 0x00a8 {
        Some(CipherSuite::TlsPskAes128GcmSha256)
    } else {
        None
    }
}

impl CipherSuite {
    /// Read a two-byte cipher suite code point.
    pub fn parse(buf: &mut ParseBuffer) -> (r: Result<CipherSuite, TlsError>)
        ensures
            old(buf).remaining().len() < 2 ==> r == Err::<CipherSuite, TlsError>(
                TlsError::ParseError(ParseError::InsufficientBytes),
            ) && final(buf).remaining() == old(buf).remaining(),
            old(buf).remaining().len() >= 2 ==> final(buf).remaining() == old(buf).remaining().skip(2)
                && match cipher_suite_of(be16(old(buf).remaining())) {
                    Some(c) => r == Ok::<CipherSuite, TlsError>(c),
                    None => r == Err::<CipherSuite, TlsError>(TlsError::InvalidCipherSuite),
                },
    {
        let code = match buf.read_u16() {
            Ok(v) => v,
            Err(e) => return Err(TlsError::ParseError(e)),
        };
        if code == 0x1301 {
            Ok(CipherSuite::TlsAes128GcmSha256)
        } else if code == 0x1302 {
            Ok(CipherSuite::TlsAes256GcmSha384)
        } else if code == 0x1303 {
            Ok(CipherSuite::TlsChacha20Poly1305Sha256)
        } else if code == 0x1304 {
            Ok(CipherSuite::TlsAes128CcmSha256)
        } else if code == 0x1305 {
            Ok(CipherSuite::TlsAes128Ccm8Sha256)
        } else if code == 0x00a8 {
            Ok(CipherSuite::TlsPskAes128GcmSha256)
        } else {
            Err(TlsError::InvalidCipherSuite)
        }
    }
}

/// The `key_share` extension type.
pub const EXT_KEY_SHARE: u16 = 51;

/// The `pre_shared_key` extension type.
pub const EXT_PRE_SHARED_KEY: u16 = 41;

/// The `supported_versions` extension type.
pub const EXT_SUPPORTED_VERSIONS: u16 = 43;

/// The `cookie` extension type.
pub const EXT_COOKIE: u16 = 44;

/// The most extensions a `ServerHello` may carry here.
pub const MAX_SERVER_HELLO_EXTENSIONS: usize = 4;

/// A `KeyShareEntry`: a named group and a key exchange value.
pub struct KeyShareEntry<'a> {
    pub group: u16,
    pub opaque: &'a [u8],
}

/// An extension of a `ServerHello`.
pub enum ServerHelloExtension<'a> {
    /// The server's key share.
    KeyShare(KeyShareEntry<'a>),
    /// The index of the PSK identity the server selected.
    PreSharedKey(u16),
    /// A cookie for the client to echo.
    Cookie(&'a [u8]),
    /// The protocol version the server selected.
    SupportedVersions(u16),
}

/// The content of a `ServerHello` extension.
pub enum SpecServerHelloExtension {
    KeyShare { group: u16, key_exchange: Seq<u8> },
    PreSharedKey { selected_identity: u16 },
    Cookie { cookie: Seq<u8> },
    SupportedVersions { selected_version: u16 },
}

impl<'a> View for ServerHelloExtension<'a> {
    type V = SpecServerHelloExtension;

    open spec fn view(&self) -> SpecServerHelloExtension {
        match self {
            ServerHelloExtension::KeyShare(e) => SpecServerHelloExtension::KeyShare {
                group: e.group,
                key_exchange: e.opaque@,
            },
            ServerHelloExtension::PreSharedKey(i) => SpecServerHelloExtension::PreSharedKey {
                selected_identity: *i,
            },
            ServerHelloExtension::Cookie(c) => SpecServerHelloExtension::Cookie { cookie: c@ },
            ServerHelloExtension::SupportedVersions(v) => SpecServerHelloExtension::SupportedVersions {
                selected_version: *v,
            },
        }
    }
}

/// Decodes the whole of `data` as the body of an extension of type `ty`.
pub open spec fn parse_extension_body(ty: u16, data: Seq<u8>) -> Result<SpecServerHelloExtension, TlsError> {
    if ty == EXT_KEY_SHARE {
        if data.len() >= 4 && be16(data.skip(2)) == data.len() - 4 {
            Ok(SpecServerHelloExtension::KeyShare { group: be16(data), key_exchange: data.skip(4) })
        } else {
            Err(TlsError::ParseError(ParseError::InvalidData))
        }
    } else if ty == EXT_PRE_SHARED_KEY {
        if data.len() == 2 {
            Ok(SpecServerHelloExtension::PreSharedKey { selected_identity: be16(data) })
        } else {
            Err(TlsError::ParseError(ParseError::InvalidData))
        }
    } else if ty == EXT_SUPPORTED_VERSIONS {
        if data.len() == 2 {
            Ok(SpecServerHelloExtension::SupportedVersions { selected_version: be16(data) })
        } else {
            Err(TlsError::ParseError(ParseError::InvalidData))
        }
    } else if ty == EXT_COOKIE {
        if data.len() >= 2 && be16(data) == data.len() - 2 {
            Ok(SpecServerHelloExtension::Cookie { cookie: data.skip(2) })
        } else {
            Err(TlsError::ParseError(ParseError::InvalidData))
        }
    } else {
        Err(TlsError::UnsupportedExtension)
    }
}

/// Decodes the whole of `s` as a list of extensions, `count` of them having been
/// read already: each is a type, a length and a body; at most
/// [`MAX_SERVER_HELLO_EXTENSIONS`] in all.
pub open spec fn parse_extension_list(s: Seq<u8>, count: nat) -> Result<Seq<SpecServerHelloExtension>, TlsError>
    decreases s.len(),
{
    if s.len() == 0 {
        Ok(Seq::empty())
    } else if s.len() < 4 {
        Err(TlsError::ParseError(ParseError::InsufficientBytes))
    } else {
        let l = be16(s.skip(2)) as int;
        if s.len() < 4 + l {
            Err(TlsError::ParseError(ParseError::InsufficientBytes))
        } else {
            match parse_extension_body(be16(s), s.subrange(4, 4 + l)) {
                Ok(e) => if count >= MAX_SERVER_HELLO_EXTENSIONS {
                    Err(TlsError::DecodeError)
                } else {
                    match parse_extension_list(s.skip(4 + l), count + 1) {
                        Ok(rest) => Ok(seq![e] + rest),
                        Err(x) => Err(x),
                    }
                },
                Err(x) => Err(x),
            }
        }
    }
}

/// Decodes one extension body of type `ty` from the whole of `buf`.
fn parse_extension_body_exec<'a>(ty: u16, buf: &mut ParseBuffer<'a>) -> (r: Result<ServerHelloExtension<'a>, TlsError>)
    ensures
        match parse_extension_body(ty, old(buf).remaining()) {
            Ok(e) => r matches Ok(x) && x@ == e,
            Err(err) => r == Err::<ServerHelloExtension<'a>, TlsError>(err),
        },
{
    let ghost data = buf.remaining();
    if ty == EXT_KEY_SHARE {
        if buf.remaining_len() < 4 {
            return Err(TlsError::ParseError(ParseError::InvalidData));
        }
        let group = match buf.read_u16() {
            Ok(v) => v,
            Err(_) => return Err(TlsError::ParseError(ParseError::InvalidData)),
        };
        let len = match buf.read_u16() {
            Ok(v) => v,
            Err(_) => return Err(TlsError::ParseError(ParseError::InvalidData)),
        };
        assert(data.skip(2).skip(2) =~= data.skip(4));
        assert(data.skip(2)[0] == data[2] && data.skip(2)[1] == data[3]);
        if len as usize != buf.remaining_len() {
            return Err(TlsError::ParseError(ParseError::InvalidData));
        }
        let opaque = match buf.read_slice(len as usize) {
            Ok(v) => v,
            Err(_) => return Err(TlsError::ParseError(ParseError::InvalidData)),
        };
        assert(opaque@ =~= data.skip(4));
        Ok(ServerHelloExtension::KeyShare(KeyShareEntry { group, opaque }))
    } else if ty == EXT_PRE_SHARED_KEY || ty == EXT_SUPPORTED_VERSIONS {
        if buf.remaining_len() != 2 {
            return Err(TlsError::ParseError(ParseError::InvalidData));
        }
        let v = match buf.read_u16() {
            Ok(v) => v,
            Err(_) => return Err(TlsError::ParseError(ParseError::InvalidData)),
        };
        if ty == EXT_PRE_SHARED_KEY {
            Ok(ServerHelloExtension::PreSharedKey(v))
        } else {
            Ok(ServerHelloExtension::SupportedVersions(v))
        }
    } else if ty == EXT_COOKIE {
        if buf.remaining_len() < 2 {
            return Err(TlsError::ParseError(ParseError::InvalidData));
        }
        let len = match buf.read_u16() {
            Ok(v) => v,
            Err(_) => return Err(TlsError::ParseError(ParseError::InvalidData)),
        };
        if len as usize != buf.remaining_len() {
            return Err(TlsError::ParseError(ParseError::InvalidData));
        }
        let cookie = match buf.read_slice(len as usize) {
            Ok(v) => v,
            Err(_) => return Err(TlsError::ParseError(ParseError::InvalidData)),
        };
        assert(cookie@ =~= data.skip(2));
        Ok(ServerHelloExtension::Cookie(cookie))
    } else {
        Err(TlsError::UnsupportedExtension)
    }
}

/// Decodes the whole of `buf` as a list of `ServerHello` extensions.
pub fn parse_extension_list_exec<'a>(buf: &mut ParseBuffer<'a>) -> (r: Result<Vec<ServerHelloExtension<'a>>, TlsError>)
    ensures
        match parse_extension_list(old(buf).remaining(), 0) {
            Ok(es) => r matches Ok(v) && v@.map_values(|x: ServerHelloExtension<'a>| x@) == es,
            Err(err) => r == Err::<Vec<ServerHelloExtension<'a>>, TlsError>(err),
        },
{
    let ghost whole = buf.remaining();
    let mut out: Vec<ServerHelloExtension<'a>> = Vec::new();
    while buf.remaining_len() > 0
        invariant
            whole == old(buf).remaining(),
            out@.len() <= MAX_SERVER_HELLO_EXTENSIONS,
            match parse_extension_list(whole, 0) {
                Ok(es) => match parse_extension_list(buf.remaining(), out@.len() as nat) {
                    Ok(rest) => es == out@.map_values(|x: ServerHelloExtension<'a>| x@) + rest,
                    Err(_) => false,
                },
                Err(err) => parse_extension_list(buf.remaining(), out@.len() as nat) == Err::<
                    Seq<SpecServerHelloExtension>,
                    TlsError,
                >(err),
            },
        decreases buf.remaining().len(),
    {
        let ghost s = buf.remaining();
        if buf.remaining_len() < 4 {
            assert(parse_extension_list(s, out@.len() as nat) == Err::<Seq<SpecServerHelloExtension>, TlsError>(
                TlsError::ParseError(ParseError::InsufficientBytes),
            ));
            return Err(TlsError::ParseError(ParseError::InsufficientBytes));
        }
        let ty = match buf.read_u16() {
            Ok(v) => v,
            Err(e) => return Err(TlsError::ParseError(e)),
        };
        let len = match buf.read_u16() {
            Ok(v) => v,
            Err(e) => return Err(TlsError::ParseError(e)),
        };
        assert(s.skip(2)[0] == s[2] && s.skip(2)[1] == s[3]);
        assert(s.skip(2).skip(2) =~= s.skip(4));
        let mut body = match buf.slice(len as usize) {
            Ok(b) => b,
            Err(e) => {
                assert(parse_extension_list(s, out@.len() as nat) == Err::<Seq<SpecServerHelloExtension>, TlsError>(
                    TlsError::ParseError(ParseError::InsufficientBytes),
                ));
                return Err(TlsError::ParseError(e));
            },
        };
        assert(body.remaining() =~= s.subrange(4, 4 + len as int));
        assert(buf.remaining() =~= s.skip(4 + len as int));
        let ext = match parse_extension_body_exec(ty, &mut body) {
            Ok(e) => e,
            Err(e) => return Err(e),
        };
        if out.len() >= MAX_SERVER_HELLO_EXTENSIONS {
            return Err(TlsError::DecodeError);
        }
        let ghost prev = out@;
        out.push(ext);
        proof {
            assert(out@.map_values(|x: ServerHelloExtension<'a>| x@) =~= prev.map_values(
                |x: ServerHelloExtension<'a>| x@,
            ).push(ext@));
            match parse_extension_list(buf.remaining(), out@.len() as nat) {
                Ok(rest) => {
                    assert(seq![ext@] + rest =~= seq![ext@].add(rest));
                    assert(prev.map_values(|x: ServerHelloExtension<'a>| x@).push(ext@) + rest
                        =~= prev.map_values(|x: ServerHelloExtension<'a>| x@) + (seq![ext@] + rest));
                },
                Err(_) => {},
            }
        }
    }
    proof {
        assert(out@.map_values(|x: ServerHelloExtension<'a>| x@) + Seq::<SpecServerHelloExtension>::empty()
            =~= out@.map_values(|x: ServerHelloExtension<'a>| x@));
    }
    Ok(out)
}

// ---------------------------------------------------------------------------
// Laws of the extension list
// ---------------------------------------------------------------------------

/// The two big-endian bytes of `v`.
pub open spec fn u16_bytes(v: u16) -> Seq<u8> {
    seq![(v / 256) as u8, (v % 256) as u8]
}

/// An extension as it is written: its type, the length of its body, then the body.
pub open spec fn extension_bytes(ty: u16, body: Seq<u8>) -> Seq<u8> {
    u16_bytes(ty) + u16_bytes(body.len() as u16) + body
}

/// A big-endian `u16` reads back from its two bytes, whatever follows them.
pub proof fn lemma_be16_bytes(v: u16, rest: Seq<u8>)
    ensures
        be16(u16_bytes(v) + rest) == v,
{
    let s = u16_bytes(v) + rest;
    assert(s[0] == (v / 256) as u8);
    assert(s[1] == (v % 256) as u8);
    assert((v / 256) as int * 256 + (v % 256) as int == v as int);
}

/// The bodies of the four extensions read back as what was written: a key
/// share (group, length, key), a selected PSK identity, a selected version and
/// a cookie (length, cookie).
pub proof fn lemma_extension_body_roundtrip(group: u16, key: Seq<u8>, identity: u16, version: u16, cookie: Seq<u8>)
    requires
        key.len() + 4 <= 0xffff,
        cookie.len() + 2 <= 0xffff,
    ensures
        parse_extension_body(EXT_KEY_SHARE, u16_bytes(group) + u16_bytes(key.len() as u16) + key)
            == Ok::<SpecServerHelloExtension, TlsError>(SpecServerHelloExtension::KeyShare { group, key_exchange: key }),
        parse_extension_body(EXT_PRE_SHARED_KEY, u16_bytes(identity))
            == Ok::<SpecServerHelloExtension, TlsError>(SpecServerHelloExtension::PreSharedKey { selected_identity: identity }),
        parse_extension_body(EXT_SUPPORTED_VERSIONS, u16_bytes(version))
            == Ok::<SpecServerHelloExtension, TlsError>(SpecServerHelloExtension::SupportedVersions { selected_version: version }),
        parse_extension_body(EXT_COOKIE, u16_bytes(cookie.len() as u16) + cookie)
            == Ok::<SpecServerHelloExtension, TlsError>(SpecServerHelloExtension::Cookie { cookie }),
{
    let ks = u16_bytes(group) + u16_bytes(key.len() as u16) + key;
    lemma_be16_bytes(group, u16_bytes(key.len() as u16) + key);
    assert(ks =~= u16_bytes(group) + (u16_bytes(key.len() as u16) + key));
    assert(ks.skip(2) =~= u16_bytes(key.len() as u16) + key);
    lemma_be16_bytes(key.len() as u16, key);
    assert(ks.skip(4) =~= key);
    lemma_be16_bytes(identity, Seq::empty());
    assert(u16_bytes(identity) + Seq::<u8>::empty() =~= u16_bytes(identity));
    lemma_be16_bytes(version, Seq::empty());
    assert(u16_bytes(version) + Seq::<u8>::empty() =~= u16_bytes(version));
    let ck = u16_bytes(cookie.len() as u16) + cookie;
    lemma_be16_bytes(cookie.len() as u16, cookie);
    assert(ck.skip(2) =~= cookie);
}

/// A list that reads without error and is not empty fits in the extensions
/// still allowed after `count`.
proof fn lemma_extension_list_bound(s: Seq<u8>, count: nat)
    requires
        parse_extension_list(s, count) is Ok,
    ensures
        parse_extension_list(s, count)->Ok_0.len() > 0 ==> count + parse_extension_list(s, count)->Ok_0.len()
            <= MAX_SERVER_HELLO_EXTENSIONS,
        s.len() > 0 ==> parse_extension_list(s, count)->Ok_0.len() > 0,
    decreases s.len(),
{
    if s.len() >= 4 {
        let l = be16(s.skip(2)) as int;
        if s.len() >= 4 + l {
            if parse_extension_body(be16(s), s.subrange(4, 4 + l)) is Ok && count < MAX_SERVER_HELLO_EXTENSIONS {
                lemma_extension_list_bound(s.skip(4 + l), count + 1);
            }
        }
    }
}

/// How many extensions were read before a list does not change how it reads,
/// as long as its extensions still fit.
proof fn lemma_extension_list_count(s: Seq<u8>, c: nat, d: nat)
    requires
        parse_extension_list(s, c) is Ok,
        d + parse_extension_list(s, c)->Ok_0.len() <= MAX_SERVER_HELLO_EXTENSIONS,
    ensures
        parse_extension_list(s, d) == parse_extension_list(s, c),
    decreases s.len(),
{
    if s.len() >= 4 {
        let l = be16(s.skip(2)) as int;
        if s.len() >= 4 + l {
            if parse_extension_body(be16(s), s.subrange(4, 4 + l)) is Ok && c < MAX_SERVER_HELLO_EXTENSIONS {
                lemma_extension_list_count(s.skip(4 + l), c + 1, d + 1);
            }
        }
    }
}

/// [`lemma_extension_list_concat`] with `count` extensions read before.
proof fn lemma_extension_list_concat_at(a: Seq<u8>, b: Seq<u8>, count: nat)
    requires
        parse_extension_list(a, count) is Ok,
        parse_extension_list(b, count + parse_extension_list(a, count)->Ok_0.len()) is Ok,
    ensures
        parse_extension_list(a + b, count) == Ok::<Seq<SpecServerHelloExtension>, TlsError>(
            parse_extension_list(a, count)->Ok_0 + parse_extension_list(b, count + parse_extension_list(a, count)->Ok_0.len())->Ok_0,
        ),
    decreases a.len(),
{
    let ea = parse_extension_list(a, count)->Ok_0;
    let eb = parse_extension_list(b, count + ea.len())->Ok_0;
    if a.len() == 0 {
        assert(a + b =~= b);
        assert(ea + eb =~= eb);
    } else {
        let s = a + b;
        let l = be16(a.skip(2)) as int;
        assert(s[0] == a[0] && s[1] == a[1]);
        assert(s.skip(2)[0] == a.skip(2)[0] && s.skip(2)[1] == a.skip(2)[1]);
        assert(be16(s.skip(2)) == be16(a.skip(2)));
        assert(s.subrange(4, 4 + l) =~= a.subrange(4, 4 + l));
        assert(s.skip(4 + l) =~= a.skip(4 + l) + b);
        let e = parse_extension_body(be16(a), a.subrange(4, 4 + l))->Ok_0;
        let rest = parse_extension_list(a.skip(4 + l), count + 1)->Ok_0;
        assert(ea == seq![e] + rest);
        lemma_extension_list_concat_at(a.skip(4 + l), b, count + 1);
        assert(seq![e] + (rest + eb) =~= ea + eb);
    }
}

/// Reading two extension lists one after the other gives the extensions of the
/// first, then those of the second, whenever each reads on its own and together
/// they stay within [`MAX_SERVER_HELLO_EXTENSIONS`]. So no extension is read
/// differently for where it stands: a key share first or last reads the same.
pub proof fn lemma_extension_list_concat(a: Seq<u8>, b: Seq<u8>)
    requires
        parse_extension_list(a, 0) is Ok,
        parse_extension_list(b, 0) is Ok,
        parse_extension_list(a, 0)->Ok_0.len() + parse_extension_list(b, 0)->Ok_0.len() <= MAX_SERVER_HELLO_EXTENSIONS,
    ensures
        parse_extension_list(a + b, 0) == Ok::<Seq<SpecServerHelloExtension>, TlsError>(
            parse_extension_list(a, 0)->Ok_0 + parse_extension_list(b, 0)->Ok_0,
        ),
{
    let na = parse_extension_list(a, 0)->Ok_0.len();
    lemma_extension_list_count(b, 0, na);
    lemma_extension_list_concat_at(a, b, 0);
}

/// A single extension whose body decodes reads as a list of that one extension.
pub proof fn lemma_extension_list_single(ty: u16, body: Seq<u8>)
    requires
        body.len() <= 0xffff,
        parse_extension_body(ty, body) is Ok,
    ensures
        parse_extension_list(extension_bytes(ty, body), 0) == Ok::<Seq<SpecServerHelloExtension>, TlsError>(
            seq![parse_extension_body(ty, body)->Ok_0],
        ),
{
    let s = extension_bytes(ty, body);
    lemma_be16_bytes(ty, u16_bytes(body.len() as u16) + body);
    assert(s =~= u16_bytes(ty) + (u16_bytes(body.len() as u16) + body));
    assert(s.skip(2) =~= u16_bytes(body.len() as u16) + body);
    lemma_be16_bytes(body.len() as u16, body);
    assert(s.subrange(4, 4 + body.len() as int) =~= body);
    assert(s.skip(4 + body.len() as int) =~= Seq::<u8>::empty());
    assert(be16(s) == ty);
    assert(be16(s.skip(2)) as int == body.len());
    assert(parse_extension_list(Seq::<u8>::empty(), 1) == Ok::<Seq<SpecServerHelloExtension>, TlsError>(Seq::empty()));
    assert(seq![parse_extension_body(ty, body)->Ok_0] + Seq::<SpecServerHelloExtension>::empty()
        =~= seq![parse_extension_body(ty, body)->Ok_0]);
}


} // verus!
