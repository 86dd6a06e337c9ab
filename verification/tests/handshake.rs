use embedded_tls::buffer::CryptoBuffer;
use embedded_tls::certificate_verify::{certificate_verify_message, CERTIFICATE_VERIFY_MESSAGE_LEN};
use embedded_tls::ecdh::P256SecretKey;
use embedded_tls::error::{ParseError, TlsError};
use embedded_tls::handshake::binder::PskBinder;
use embedded_tls::handshake::extensions::CipherSuite;
use embedded_tls::handshake::finished::Finished;
use embedded_tls::handshake::server_hello::ServerHello;
use embedded_tls::parse_buffer::ParseBuffer;
use embedded_tls::signing::P256SigningKey;

#[test]
fn psk_binder_encode_and_len() {
    assert_eq!(PskBinder::<sha2::Sha256>::len(), 32);
    assert_eq!(PskBinder::<sha2::Sha384>::len(), 48);
    let binder = PskBinder::<sha2::Sha256> { verify: [7u8; 32] };
    let mut buf = CryptoBuffer::with_capacity(40);
    binder.encode(&mut buf).unwrap();
    assert_eq!(buf.len(), 33);
    assert_eq!(buf.as_slice()[0], 32);
    assert_eq!(&buf.as_slice()[1..], &[7u8; 32]);
}

#[test]
fn psk_binder_encode_out_of_room() {
    let binder = PskBinder::<sha2::Sha256> { verify: [7u8; 32] };
    let mut buf = CryptoBuffer::with_capacity(10);
    assert_eq!(binder.encode(&mut buf), Err(TlsError::EncodeError));
    // The length byte fitted, the binder did not.
    assert_eq!(buf.as_slice(), &[32]);
    let mut full = CryptoBuffer::with_capacity(0);
    assert_eq!(binder.encode(&mut full), Err(TlsError::EncodeError));
    assert_eq!(full.len(), 0);
}

#[test]
fn finished_parse_and_encode_roundtrip() {
    let finished = Finished::<sha2::Sha384> { verify: [9u8; 48], hash: None };
    let mut buf = CryptoBuffer::with_capacity(64);
    buf.push(1).unwrap();
    finished.encode(&mut buf).unwrap();
    let mut parse = ParseBuffer::new(buf.as_slice());
    assert_eq!(parse.read_u8(), Ok(1));
    let back = Finished::<sha2::Sha384>::parse(&mut parse, 48).ok().unwrap();
    assert_eq!(back.verify, [9u8; 48]);
    assert!(back.hash.is_none());
    assert_eq!(parse.remaining_len(), 0);
}

#[test]
fn finished_parse_insufficient_bytes() {
    let bytes = [1u8; 31];
    let mut parse = ParseBuffer::new(&bytes);
    assert!(matches!(
        Finished::<sha2::Sha256>::parse(&mut parse, 31),
        Err(TlsError::ParseError(ParseError::InsufficientBytes))
    ));
    assert_eq!(parse.remaining_len(), 31);
    let finished = Finished::<sha2::Sha256> { verify: [3u8; 32], hash: None };
    let mut small = CryptoBuffer::with_capacity(31);
    assert_eq!(finished.encode(&mut small), Err(TlsError::EncodeError));
    assert_eq!(small.len(), 0);
}

#[test]
fn certificate_verify_content() {
    let context = b"TLS 1.3, server CertificateVerify\0";
    let hash = [0xabu8; 48];
    let msg = certificate_verify_message(context, &hash).unwrap();
    assert_eq!(msg.len(), CERTIFICATE_VERIFY_MESSAGE_LEN);
    assert!(msg.as_slice()[..64].iter().all(|b| *b == 0x20));
    assert_eq!(&msg.as_slice()[64..98], &context[..]);
    assert_eq!(&msg.as_slice()[98..], &hash[..]);
    assert!(certificate_verify_message(context, &[0u8; 49]).is_err());
    let short = certificate_verify_message(b"ctx", &[1, 2]).unwrap();
    assert_eq!(short.len(), 64 + 3 + 2);
}

#[test]
fn parse_buffer_reads() {
    let bytes = [1u8, 2, 3, 4, 5];
    let mut p = ParseBuffer::new(&bytes);
    assert_eq!(p.read_u16(), Ok(0x0102));
    let mut dest = [0u8; 2];
    p.fill(&mut dest).unwrap();
    assert_eq!(dest, [3, 4]);
    assert_eq!(p.read_u16(), Err(ParseError::InsufficientBytes));
    assert_eq!(p.read_u8(), Ok(5));
    assert_eq!(p.read_u8(), Err(ParseError::InsufficientBytes));
}

#[test]
fn cipher_suite_codes() {
    let bytes = [0x13, 0x02, 0x13, 0x99, 0x13];
    let mut p = ParseBuffer::new(&bytes);
    assert_eq!(CipherSuite::parse(&mut p), Ok(CipherSuite::TlsAes256GcmSha384));
    assert_eq!(CipherSuite::parse(&mut p), Err(TlsError::InvalidCipherSuite));
    assert_eq!(CipherSuite::parse(&mut p), Err(TlsError::ParseError(ParseError::InsufficientBytes)));
}

fn server_hello_bytes(session_id: &[u8], suite: u16, extensions: &[u8]) -> Vec<u8> {
    let mut v = vec![0x03, 0x03];
    v.extend_from_slice(&[0x55u8; 32]);
    v.push(session_id.len() as u8);
    v.extend_from_slice(session_id);
    v.extend_from_slice(&suite.to_be_bytes());
    v.push(0);
    v.extend_from_slice(&(extensions.len() as u16).to_be_bytes());
    v.extend_from_slice(extensions);
    v
}

fn key_share_extension(key: &[u8]) -> Vec<u8> {
    let mut v = vec![0x00, 51];
    v.extend_from_slice(&((key.len() + 4) as u16).to_be_bytes());
    v.extend_from_slice(&[0x00, 0x17]);
    v.extend_from_slice(&(key.len() as u16).to_be_bytes());
    v.extend_from_slice(key);
    v
}

#[test]
fn server_hello_key_share_and_shared_secret() {
    let server = [0x5au8; 32];
    let client = [0x3cu8; 32];
    let server_public = P256SigningKey::from_bytes(&server).unwrap().verifying_key();
    let client_public = P256SigningKey::from_bytes(&client).unwrap().verifying_key();
    let mut exts = vec![0x00, 43, 0x00, 0x02, 0x03, 0x04];
    exts.extend_from_slice(&key_share_extension(&server_public));
    let bytes = server_hello_bytes(&[1, 2, 3], 0x1301, &exts);
    let mut p = ParseBuffer::new(&bytes);
    let hello = ServerHello::parse(&mut p).ok().unwrap();
    assert_eq!(p.remaining_len(), 0);
    let share = hello.key_share().unwrap();
    assert_eq!(share.group, 0x0017);
    assert_eq!(share.opaque, &server_public[..]);
    let ours = hello.calculate_shared_secret(&P256SecretKey::from_bytes(&client).unwrap()).unwrap();
    let theirs = P256SecretKey::from_bytes(&server).unwrap().diffie_hellman(&client_public).unwrap();
    assert_eq!(ours, theirs);
}

#[test]
fn server_hello_without_key_share() {
    let bytes = server_hello_bytes(&[], 0x1302, &[0x00, 43, 0x00, 0x02, 0x03, 0x04]);
    let mut p = ParseBuffer::new(&bytes);
    let hello = ServerHello::parse(&mut p).ok().unwrap();
    assert!(hello.key_share().is_none());
    assert!(hello.calculate_shared_secret(&P256SecretKey::from_bytes(&[1u8; 32]).unwrap()).is_none());
}

#[test]
fn server_hello_errors() {
    let parse = |bytes: &[u8]| -> Result<(), TlsError> {
        let mut p = ParseBuffer::new(bytes);
        ServerHello::parse(&mut p).map(|_| ())
    };
    assert_eq!(parse(&[0x03]), Err(TlsError::InvalidHandshake));
    assert_eq!(parse(&[0x03, 0x03, 0x00]), Err(TlsError::ParseError(ParseError::InsufficientBytes)));
    let good = server_hello_bytes(&[9; 4], 0x1301, &[]);
    assert_eq!(parse(&good), Ok(()));
    assert_eq!(parse(&good[..34]), Err(TlsError::InvalidSessionIdLength));
    assert_eq!(parse(&good[..37]), Err(TlsError::InvalidSessionIdLength));
    assert_eq!(parse(&good[..40]), Err(TlsError::InvalidCipherSuite));
    let unknown_suite = server_hello_bytes(&[], 0x1399, &[]);
    assert_eq!(parse(&unknown_suite), Err(TlsError::InvalidCipherSuite));
    let unknown_ext = server_hello_bytes(&[], 0x1301, &[0x00, 0x99, 0x00, 0x00]);
    assert_eq!(parse(&unknown_ext), Err(TlsError::UnsupportedExtension));
    let bad_version = server_hello_bytes(&[], 0x1301, &[0x00, 43, 0x00, 0x01, 0x03]);
    assert_eq!(parse(&bad_version), Err(TlsError::ParseError(ParseError::InvalidData)));
    let truncated = server_hello_bytes(&[], 0x1301, &[0x00, 43, 0x00, 0x05, 0x03]);
    assert_eq!(parse(&truncated), Err(TlsError::ParseError(ParseError::InsufficientBytes)));
    let mut five = Vec::new();
    for _ in 0..5 {
        five.extend_from_slice(&[0x00, 41, 0x00, 0x02, 0x00, 0x00]);
    }
    assert_eq!(parse(&server_hello_bytes(&[], 0x1301, &five)), Err(TlsError::DecodeError));
    let four = &five[..24];
    assert_eq!(parse(&server_hello_bytes(&[], 0x1301, four)), Ok(()));
}

#[test]
fn server_hello_key_share_not_on_curve() {
    // 65 bytes in the uncompressed form, but (1, 1) is not a point of P-256.
    let mut bogus = vec![0x04u8];
    bogus.extend_from_slice(&[0u8; 31]);
    bogus.push(1);
    bogus.extend_from_slice(&[0u8; 31]);
    bogus.push(1);
    assert_eq!(bogus.len(), 65);
    let bytes = server_hello_bytes(&[], 0x1301, &key_share_extension(&bogus));
    let mut p = ParseBuffer::new(&bytes);
    let hello = ServerHello::parse(&mut p).ok().unwrap();
    assert_eq!(hello.key_share().unwrap().opaque, &bogus[..]);
    let key = P256SecretKey::from_bytes(&[7u8; 32]).unwrap();
    assert!(hello.calculate_shared_secret(&key).is_none());
    assert!(key.diffie_hellman(&bogus).is_none());
}

#[test]
fn server_hello_key_share_wrong_length() {
    let key = P256SecretKey::from_bytes(&[7u8; 32]).unwrap();
    let public = P256SigningKey::from_bytes(&[9u8; 32]).unwrap().verifying_key();
    let bytes = server_hello_bytes(&[], 0x1301, &key_share_extension(&public[..64]));
    let mut p = ParseBuffer::new(&bytes);
    let hello = ServerHello::parse(&mut p).ok().unwrap();
    assert!(hello.calculate_shared_secret(&key).is_none());
}
