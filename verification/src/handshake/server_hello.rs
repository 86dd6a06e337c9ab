//! The `ServerHello` handshake message (RFC 8446 section 4.1.3).

use vstd::prelude::*;

use crate::ecdh::{P256SecretKey, p256_ecdh};
use crate::signing::p256_public_key_valid;
use crate::error::{ParseError, TlsError};
use crate::handshake::extensions::{
    be16, cipher_suite_of, lemma_be16_bytes, u16_bytes, parse_extension_list, parse_extension_list_exec, CipherSuite,
    KeyShareEntry, ServerHelloExtension, SpecServerHelloExtension,
};
use crate::parse_buffer::ParseBuffer;

verus! {

/// A `ServerHello`: the extensions the handshake goes on with.
pub struct ServerHello<'a> {
    extensions: Vec<ServerHelloExtension<'a>>,
}

impl<'a> View for ServerHello<'a> {
    type V = Seq<SpecServerHelloExtension>;

    closed spec fn view(&self) -> Seq<SpecServerHelloExtension> {
        self.extensions@.map_values(|x: ServerHelloExtension<'a>| x@)
    }
}

/// Reading a `ServerHello` body from `s`: the extensions or the error, and how
/// many bytes of `s` the reads consumed.
///
/// The body is a legacy version (two bytes), a 32-byte random, a session id
/// with a one-byte length, a cipher suite this library knows, a compression
/// method (one byte), then the extensions with a two-byte length.
pub open spec fn server_hello_outcome(s: Seq<u8>) -> (Result<Seq<SpecServerHelloExtension>, TlsError>, nat) {
    if s.len() < 2 {
        (Err(TlsError::InvalidHandshake), 0)
    } else if s.len() < 34 {
        (Err(TlsError::ParseError(ParseError::InsufficientBytes)), 2)
    } else if s.len() < 35 {
        (Err(TlsError::InvalidSessionIdLength), 34)
    } else {
        let sid = s[34] as nat;
        if s.len() < 35 + sid {
            (Err(TlsError::InvalidSessionIdLength), 35)
        } else if s.len() < 37 + sid {
            (Err(TlsError::InvalidCipherSuite), 35 + sid)
        } else if cipher_suite_of(be16(s.skip(35 + sid as int))) is None {
            (Err(TlsError::InvalidCipherSuite), 37 + sid)
        } else if s.len() < 38 + sid {
            (Err(TlsError::ParseError(ParseError::InsufficientBytes)), 37 + sid)
        } else if s.len() < 40 + sid {
            (Err(TlsError::ParseError(ParseError::InsufficientBytes)), 38 + sid)
        } else {
            let el = be16(s.skip(38 + sid as int)) as nat;
            if s.len() < 40 + sid + el {
                (Err(TlsError::ParseError(ParseError::InsufficientBytes)), 40 + sid)
            } else {
                (
                    parse_extension_list(s.subrange(40 + sid as int, 40 + sid + el as int), 0),
                    40 + sid + el,
                )
            }
        }
    }
}

/// A `ServerHello` body as it is written: the legacy version, the 32-byte
/// random, the session id after its one-byte length, the cipher suite, the
/// compression method, and the extensions after their two-byte length.
pub open spec fn server_hello_bytes(
    version: u16,
    random: Seq<u8>,
    session_id: Seq<u8>,
    suite: u16,
    compression: u8,
    extensions: Seq<u8>,
) -> Seq<u8> {
    u16_bytes(version) + random + seq![session_id.len() as u8] + session_id + u16_bytes(suite) + seq![compression]
        + u16_bytes(extensions.len() as u16) + extensions
}

/// Reading a written `ServerHello` body, whatever follows it, reads exactly its
/// extension list, whatever the version, random, session id and compression
/// method, for every cipher suite this library knows, and consumes exactly the
/// body.
pub proof fn lemma_server_hello_roundtrip(
    version: u16,
    random: Seq<u8>,
    session_id: Seq<u8>,
    suite: u16,
    compression: u8,
    extensions: Seq<u8>,
    rest: Seq<u8>,
)
    requires
        random.len() == 32,
        session_id.len() <= 255,
        cipher_suite_of(suite) is Some,
        extensions.len() <= 0xffff,
    ensures
        server_hello_outcome(server_hello_bytes(version, random, session_id, suite, compression, extensions) + rest)
            == (
            parse_extension_list(extensions, 0),
            server_hello_bytes(version, random, session_id, suite, compression, extensions).len(),
        ),
{
    let sid = session_id.len() as int;
    let el = extensions.len() as int;
    let body = server_hello_bytes(version, random, session_id, suite, compression, extensions);
    let s = body + rest;
    let after_suite = seq![compression] + u16_bytes(extensions.len() as u16) + extensions + rest;
    let after_comp = u16_bytes(extensions.len() as u16) + extensions + rest;
    assert(body.len() == 40 + sid + el);
    assert(s[34] == session_id.len() as u8);
    assert(s.skip(35 + sid) =~= u16_bytes(suite) + after_suite);
    lemma_be16_bytes(suite, after_suite);
    assert(s.skip(38 + sid) =~= u16_bytes(extensions.len() as u16) + (extensions + rest));
    lemma_be16_bytes(extensions.len() as u16, extensions + rest);
    assert(s.subrange(40 + sid, 40 + sid + el) =~= extensions);
}

/// The first key share among `es`: its group and key exchange value.
pub open spec fn first_key_share(es: Seq<SpecServerHelloExtension>) -> Option<(u16, Seq<u8>)>
    decreases es.len(),
{
    if es.len() == 0 {
        None
    } else {
        match es[0] {
            SpecServerHelloExtension::KeyShare { group, key_exchange } => Some((group, key_exchange)),
            _ => first_key_share(es.drop_first()),
        }
    }
}

/// The first key share is the one at the first position that holds a key share,
/// wherever that position is: `first_key_share` gives its group and key exchange.
pub proof fn lemma_first_key_share_at(es: Seq<SpecServerHelloExtension>, j: int)
    requires
        0 <= j < es.len(),
        es[j] is KeyShare,
        forall|i: int| 0 <= i < j ==> !(#[trigger] es[i] is KeyShare),
    ensures
        first_key_share(es) == Some((es[j]->KeyShare_group, es[j]->KeyShare_key_exchange)),
    decreases j,
{
    if j > 0 {
        assert(!(es[0] is KeyShare));
        let rest = es.drop_first();
        assert forall|i: int| 0 <= i < j - 1 implies !(#[trigger] rest[i] is KeyShare) by {
            assert(rest[i] == es[i + 1]);
        }
        assert(rest[j - 1] == es[j]);
        lemma_first_key_share_at(rest, j - 1);
    }
}

/// There is no first key share exactly when no extension is a key share.
pub proof fn lemma_first_key_share_none(es: Seq<SpecServerHelloExtension>)
    ensures
        first_key_share(es) is None <==> forall|i: int| 0 <= i < es.len() ==> !(#[trigger] es[i] is KeyShare),
    decreases es.len(),
{
    if es.len() > 0 {
        let rest = es.drop_first();
        lemma_first_key_share_none(rest);
        if es[0] is KeyShare {
            assert(first_key_share(es) is Some);
        } else {
            assert forall|i: int| 0 <= i < rest.len() implies (#[trigger] rest[i]) == es[i + 1] by {}
            if forall|i: int| 0 <= i < rest.len() ==> !(#[trigger] rest[i] is KeyShare) {
                assert forall|i: int| 0 <= i < es.len() implies !(#[trigger] es[i] is KeyShare) by {
                    if i > 0 {
                        assert(es[i] == rest[i - 1]);
                    }
                }
            } else {
                let k = choose|i: int| 0 <= i < rest.len() && (#[trigger] rest[i] is KeyShare);
                assert(es[k + 1] is KeyShare);
            }
        }
    }
}

impl<'a> ServerHello<'a> {
    /// Read a `ServerHello` body.
    pub fn parse(buf: &mut ParseBuffer<'a>) -> (r: Result<ServerHello<'a>, TlsError>)
        ensures
            final(buf).remaining() == old(buf).remaining().skip(server_hello_outcome(old(buf).remaining()).1 as int),
            match server_hello_outcome(old(buf).remaining()).0 {
                Ok(es) => r matches Ok(h) && h@ == es,
                Err(e) => r == Err::<ServerHello<'a>, TlsError>(e),
            },
    {
        let ghost s = buf.remaining();
        let _version = match buf.read_u16() {
            Ok(v) => v,
            Err(_) => return Err(TlsError::InvalidHandshake),
        };
        let mut random = [0u8; 32];
        match buf.fill(&mut random) {
            Ok(()) => {},
            Err(e) => return Err(TlsError::ParseError(e)),
        }
        assert(s.skip(2).skip(32) =~= s.skip(34));
        let session_id_length = match buf.read_u8() {
            Ok(v) => v,
            Err(_) => return Err(TlsError::InvalidSessionIdLength),
        };
        assert(s.skip(34)[0] == s[34]);
        assert(s.skip(34).skip(1) =~= s.skip(35));
        let _session_id = match buf.slice(session_id_length as usize) {
            Ok(v) => v,
            Err(_) => return Err(TlsError::InvalidSessionIdLength),
        };
        let ghost sid = session_id_length as nat;
        assert(s.skip(35).skip(sid as int) =~= s.skip(35 + sid as int));
        let _cipher_suite: CipherSuite = match CipherSuite::parse(buf) {
            Ok(c) => c,
            Err(_) => return Err(TlsError::InvalidCipherSuite),
        };
        assert(s.skip(35 + sid as int).skip(2) =~= s.skip(37 + sid as int));
        match buf.read_u8() {
            Ok(_) => {},
            Err(e) => return Err(TlsError::ParseError(e)),
        }
        assert(s.skip(37 + sid as int).skip(1) =~= s.skip(38 + sid as int));
        let ghost rem = buf.remaining();
        proof {
            if rem.len() >= 2 {
                let el = be16(rem) as nat;
                assert(rem[0] == s[38 + sid as int] && rem[1] == s[39 + sid as int]);
                assert(s.skip(38 + sid as int)[0] == s[38 + sid as int]);
                assert(s.skip(38 + sid as int)[1] == s[39 + sid as int]);
                if rem.len() >= 2 + el {
                    assert(rem.subrange(2, 2 + el as int) =~= s.subrange(40 + sid as int, 40 + sid + el as int));
                    assert(rem.skip(2 + el as int) =~= s.skip(40 + sid + el as int));
                } else {
                    assert(rem.skip(2) =~= s.skip(40 + sid as int));
                }
            }
        }
        let extensions = match Self::parse_extensions(buf) {
            Ok(v) => v,
            Err(e) => return Err(e),
        };
        Ok(ServerHello { extensions })
    }

    /// Read the extensions of a `ServerHello`: a two-byte length, then the list.
    fn parse_extensions(buf: &mut ParseBuffer<'a>) -> (r: Result<Vec<ServerHelloExtension<'a>>, TlsError>)
        ensures
            old(buf).remaining().len() < 2 ==> r == Err::<Vec<ServerHelloExtension<'a>>, TlsError>(
                TlsError::ParseError(ParseError::InsufficientBytes),
            ) && final(buf).remaining() == old(buf).remaining(),
            old(buf).remaining().len() >= 2 ==> {
                let el = be16(old(buf).remaining()) as nat;
                if old(buf).remaining().len() < 2 + el {
                    r == Err::<Vec<ServerHelloExtension<'a>>, TlsError>(
                        TlsError::ParseError(ParseError::InsufficientBytes),
                    ) && final(buf).remaining() == old(buf).remaining().skip(2)
                } else {
                    final(buf).remaining() == old(buf).remaining().skip(2 + el as int)
                        && match parse_extension_list(old(buf).remaining().subrange(2, 2 + el as int), 0) {
                            Ok(es) => r matches Ok(v) && v@.map_values(|x: ServerHelloExtension<'a>| x@) == es,
                            Err(e) => r == Err::<Vec<ServerHelloExtension<'a>>, TlsError>(e),
                        }
                }
            },
    {
        let ghost s = buf.remaining();
        let len = match buf.read_u16() {
            Ok(v) => v,
            Err(e) => return Err(TlsError::ParseError(e)),
        };
        let mut list = match buf.slice(len as usize) {
            Ok(v) => v,
            Err(e) => return Err(TlsError::ParseError(e)),
        };
        assert(s.skip(2).take(len as int) =~= s.subrange(2, 2 + len as int));
        assert(s.skip(2).skip(len as int) =~= s.skip(2 + len as int));
        parse_extension_list_exec(&mut list)
    }

    /// The server's key share, if it sent one.
    pub fn key_share(&self) -> (r: Option<&KeyShareEntry<'a>>)
        ensures
            match first_key_share(self@) {
                Some((group, key)) => r matches Some(e) && e.group == group && e.opaque@ == key,
                None => r is None,
            },
            r is None <==> forall|i: int| 0 <= i < self@.len() ==> !(#[trigger] self@[i] is KeyShare),
            r matches Some(e) ==> exists|j: int|
                0 <= j < self@.len() && #[trigger] self@[j] == (SpecServerHelloExtension::KeyShare {
                    group: e.group,
                    key_exchange: e.opaque@,
                }) && forall|i: int| 0 <= i < j ==> !(#[trigger] self@[i] is KeyShare),
    {
        let ghost es = self@;
        assert(es.skip(0) =~= es);
        let mut i: usize = 0;
        while i < self.extensions.len()
            invariant
                es == self@,
                i <= self.extensions@.len(),
                es.len() == self.extensions@.len(),
                first_key_share(es) == first_key_share(es.skip(i as int)),
                forall|k: int| 0 <= k < i ==> !(#[trigger] es[k] is KeyShare),
            decreases self.extensions@.len() - i,
        {
            assert(es.skip(i as int)[0] == es[i as int]);
            assert(es.skip(i as int).drop_first() =~= es.skip(i + 1));
            assert(es[i as int] == self.extensions@[i as int]@);
            match &self.extensions[i] {
                ServerHelloExtension::KeyShare(entry) => {
                    assert(es[i as int] == (SpecServerHelloExtension::KeyShare {
                        group: entry.group,
                        key_exchange: entry.opaque@,
                    }));
                    return Some(entry);
                },
                _ => {},
            }
            i = i + 1;
        }
        None
    }

    /// The ECDH shared secret between our ephemeral key and the server's P-256 key share.
    pub fn calculate_shared_secret(&self, secret: &P256SecretKey) -> (r: Option<[u8; 32]>)
        ensures
            match first_key_share(self@) {
                Some((_group, key)) => {
                    &&& r == if key.len() == 65 {
                        p256_ecdh(secret.secret(), key)
                    } else {
                        None
                    }
                    &&& r is Some <==> key.len() == 65 && p256_public_key_valid(key)
                },
                None => r is None,
            },
    {
        let server_key_share = match self.key_share() {
            Some(k) => k,
            None => return None,
        };
        secret.diffie_hellman(server_key_share.opaque)
    }
}

} // verus!
