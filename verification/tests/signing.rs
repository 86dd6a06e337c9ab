use embedded_tls::byte_vec::ByteVec;
use embedded_tls::ecdh::P256SecretKey;
use embedded_tls::error::TlsError;
use embedded_tls::signing::{
    sign_ecdsa_p256, sign_ecdsa_p384, sign_ed25519, verify_ecdsa_p256, verify_ecdsa_p384, verify_ed25519,
    Ed25519SigningKey, P256SigningKey, P384SigningKey,
};

#[test]
fn ed25519_sign_verify_roundtrip() {
    let key = Ed25519SigningKey::from_bytes(&[7u8; 32]);
    let public_key = key.verifying_key();

    let mut signature = ByteVec::<64>::new();
    sign_ed25519(&key, b"hello", &mut signature).unwrap();
    assert_eq!(signature.len(), 64);
    verify_ed25519(&public_key, b"hello", signature.as_slice()).unwrap();
    assert!(verify_ed25519(&public_key, b"hellp", signature.as_slice()).is_err());
    assert!(verify_ed25519(&public_key[..31], b"hello", signature.as_slice()).is_err());
}

#[test]
fn ed25519_rfc8032_test_1() {
    let secret: [u8; 32] = [
        0x9d, 0x61, 0xb1, 0x9d, 0xef, 0xfd, 0x5a, 0x60, 0xba, 0x84, 0x4a, 0xf4, 0x92, 0xec, 0x2c,
        0xc4, 0x44, 0x49, 0xc5, 0x69, 0x7b, 0x32, 0x69, 0x19, 0x70, 0x3b, 0xac, 0x03, 0x1c, 0xae,
        0x7f, 0x60,
    ];
    let key = Ed25519SigningKey::from_bytes(&secret);
    assert_eq!(
        key.verifying_key(),
        [
            0xd7, 0x5a, 0x98, 0x01, 0x82, 0xb1, 0x0a, 0xb7, 0xd5, 0x4b, 0xfe, 0xd3, 0xc9, 0x64, 0x07,
            0x3a, 0x0e, 0xe1, 0x72, 0xf3, 0xda, 0xa6, 0x23, 0x25, 0xaf, 0x02, 0x1a, 0x68, 0xf7, 0x07,
            0x51, 0x1a,
        ]
    );
    let mut signature = ByteVec::<64>::new();
    sign_ed25519(&key, b"", &mut signature).unwrap();
    assert_eq!(&signature.as_slice()[..4], &[0xe5, 0x56, 0x43, 0x00]);
    assert_eq!(&signature.as_slice()[60..], &[0x8e, 0x7a, 0x10, 0x0b]);
}

#[test]
fn ed25519_errors() {
    let key = Ed25519SigningKey::from_bytes(&[1u8; 32]);
    let mut short = ByteVec::<63>::new();
    assert_eq!(sign_ed25519(&key, b"m", &mut short), Err(TlsError::EncodeError));
    assert_eq!(short.len(), 0);
    let mut signature = ByteVec::<64>::new();
    sign_ed25519(&key, b"m", &mut signature).unwrap();
    assert_eq!(
        verify_ed25519(&key.verifying_key(), b"m", &signature.as_slice()[..63]),
        Err(TlsError::DecodeError)
    );
    let other = Ed25519SigningKey::from_bytes(&[2u8; 32]);
    assert_eq!(
        verify_ed25519(&other.verifying_key(), b"m", signature.as_slice()),
        Err(TlsError::InvalidSignature)
    );
}

#[test]
fn p256_sign_verify_roundtrip() {
    let key = P256SigningKey::from_bytes(&[0x42u8; 32]).unwrap();
    let public_key = key.verifying_key();
    assert_eq!(public_key[0], 0x04);
    let mut signature = ByteVec::<104>::new();
    sign_ecdsa_p256(&key, b"content to sign", &mut signature).unwrap();
    assert_eq!(signature.as_slice()[0], 0x30);
    assert_eq!(verify_ecdsa_p256(&public_key, b"content to sign", signature.as_slice()), Ok(()));
    assert_eq!(
        verify_ecdsa_p256(&public_key, b"content to sign!", signature.as_slice()),
        Err(TlsError::InvalidSignature)
    );
    assert_eq!(
        verify_ecdsa_p256(&public_key[..64], b"content to sign", signature.as_slice()),
        Err(TlsError::DecodeError)
    );
    assert_eq!(
        verify_ecdsa_p256(&public_key, b"content to sign", &signature.as_slice()[1..]),
        Err(TlsError::DecodeError)
    );
    let mut off_curve = public_key;
    off_curve[64] ^= 1;
    assert_eq!(
        verify_ecdsa_p256(&off_curve, b"content to sign", signature.as_slice()),
        Err(TlsError::DecodeError)
    );
    // A zero scalar is refused before any curve arithmetic.
    let zero_sig = [0x30, 0x06, 0x02, 0x01, 0x00, 0x02, 0x01, 0x01];
    assert_eq!(verify_ecdsa_p256(&public_key, b"x", &zero_sig), Err(TlsError::DecodeError));
}

#[test]
fn p256_signing_is_deterministic() {
    let key = P256SigningKey::from_bytes(&[0x11u8; 32]).unwrap();
    let mut a = ByteVec::<104>::new();
    let mut b = ByteVec::<104>::new();
    sign_ecdsa_p256(&key, b"m", &mut a).unwrap();
    sign_ecdsa_p256(&key, b"m", &mut b).unwrap();
    assert_eq!(a.as_slice(), b.as_slice());
    let mut tiny = ByteVec::<8>::new();
    assert_eq!(sign_ecdsa_p256(&key, b"m", &mut tiny), Err(TlsError::EncodeError));
}

#[test]
fn p256_key_must_be_a_valid_scalar() {
    assert!(P256SigningKey::from_bytes(&[0u8; 32]).is_none());
    assert!(P256SigningKey::from_bytes(&[0xffu8; 32]).is_none());
    assert!(P256SigningKey::from_bytes(&[1u8; 32]).is_some());
    assert!(P384SigningKey::from_bytes(&[0u8; 48]).is_none());
    assert!(P384SigningKey::from_bytes(&[0xffu8; 48]).is_none());
}

#[test]
fn p384_sign_verify_roundtrip() {
    let key = P384SigningKey::from_bytes(&[0x24u8; 48]).unwrap();
    let public_key = key.verifying_key();
    assert_eq!(public_key.len(), 97);
    let mut signature = ByteVec::<104>::new();
    sign_ecdsa_p384(&key, b"transcript", &mut signature).unwrap();
    assert_eq!(verify_ecdsa_p384(&public_key, b"transcript", signature.as_slice()), Ok(()));
    assert_eq!(
        verify_ecdsa_p384(&public_key, b"transcripT", signature.as_slice()),
        Err(TlsError::InvalidSignature)
    );
    assert_eq!(
        verify_ecdsa_p256(&public_key, b"transcript", signature.as_slice()),
        Err(TlsError::DecodeError)
    );
}

#[test]
fn p256_ecdh_agrees_on_both_sides() {
    let a = [0x21u8; 32];
    let b = [0x37u8; 32];
    let pub_a = P256SigningKey::from_bytes(&a).unwrap().verifying_key();
    let pub_b = P256SigningKey::from_bytes(&b).unwrap().verifying_key();
    let sa = P256SecretKey::from_bytes(&a).unwrap();
    let sb = P256SecretKey::from_bytes(&b).unwrap();
    let ab = sa.diffie_hellman(&pub_b).unwrap();
    let ba = sb.diffie_hellman(&pub_a).unwrap();
    assert_eq!(ab, ba);
    assert!(sa.diffie_hellman(&pub_b[..64]).is_none());
    let mut bad = pub_b;
    bad[64] ^= 1;
    assert!(sa.diffie_hellman(&bad).is_none());
}

#[test]
fn p384_rejects_bad_points_and_scalars() {
    let key = P384SigningKey::from_bytes(&[0x24u8; 48]).unwrap();
    let public_key = key.verifying_key();
    let mut off_curve = public_key;
    off_curve[96] ^= 1;
    let mut signature = ByteVec::<104>::new();
    sign_ecdsa_p384(&key, b"m", &mut signature).unwrap();
    assert_eq!(verify_ecdsa_p384(&off_curve, b"m", signature.as_slice()), Err(TlsError::DecodeError));
    let zero_sig = [0x30, 0x06, 0x02, 0x01, 0x00, 0x02, 0x01, 0x01];
    assert_eq!(verify_ecdsa_p384(&public_key, b"m", &zero_sig), Err(TlsError::DecodeError));
}

#[test]
fn ecdh_secret_must_be_a_valid_scalar() {
    assert!(P256SecretKey::from_bytes(&[0u8; 32]).is_none());
    assert!(P256SecretKey::from_bytes(&[0xffu8; 32]).is_none());
    assert!(P256SecretKey::from_bytes(&[5u8; 32]).is_some());
}
