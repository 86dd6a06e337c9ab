use embedded_tls::crypto::{ByteArray, Hkdf, TlsAead, TlsHash, TlsHmac};
use embedded_tls::error::TlsError;
use embedded_tls::rustcrypto::{Aes128Gcm, Aes256Gcm, HmacSha256, HmacSha384};

fn hex(s: &str) -> Vec<u8> {
    (0..s.len())
        .step_by(2)
        .map(|i| u8::from_str_radix(&s[i..i + 2], 16).unwrap())
        .collect()
}

#[test]
fn hkdf_rfc5869_case_1() {
    let ikm = [0x0b; 22];
    let salt: [u8; 13] = core::array::from_fn(|i| i as u8);
    let info: [u8; 10] = core::array::from_fn(|i| 0xf0 + i as u8);

    let hkdf = Hkdf::<sha2::Sha256>::extract(&salt, &ikm);
    assert_eq!(
        hkdf.prk(),
        &[
            0x07, 0x77, 0x09, 0x36, 0x2c, 0x2e, 0x32, 0xdf, 0x0d, 0xdc, 0x3f, 0x0d, 0xc4, 0x7b,
            0xba, 0x63, 0x90, 0xb6, 0xc7, 0x3b, 0xb5, 0x0f, 0x9c, 0x31, 0x22, 0xec, 0x84, 0x4a,
            0xd7, 0xc2, 0xb3, 0xe5,
        ]
    );

    let mut okm = [0; 42];
    hkdf.expand(&info, &mut okm).unwrap();
    assert_eq!(
        okm,
        [
            0x3c, 0xb2, 0x5f, 0x25, 0xfa, 0xac, 0xd5, 0x7a, 0x90, 0x43, 0x4f, 0x64, 0xd0, 0x36,
            0x2f, 0x2a, 0x2d, 0x2d, 0x0a, 0x90, 0xcf, 0x1a, 0x5a, 0x4c, 0x5d, 0xb0, 0x2d, 0x56,
            0xec, 0xc4, 0xc5, 0xbf, 0x34, 0x00, 0x72, 0x08, 0xd5, 0xb8, 0x87, 0x18, 0x58, 0x65,
        ]
    );
}

#[test]
fn hkdf_rfc5869_case_3_empty_salt_and_info() {
    let ikm = [0x0b; 22];
    let hkdf = Hkdf::<sha2::Sha256>::extract(&[], &ikm);
    assert_eq!(
        hkdf.prk().to_vec(),
        hex("19ef24a32c717b167f33a91d6f648bdf96596776afdb6377ac434c1c293ccb04")
    );
    let mut okm = [0; 42];
    hkdf.expand(&[], &mut okm).unwrap();
    assert_eq!(
        okm.to_vec(),
        hex("8da4e775a563c18f715f802a063c5a31b8a11f5c5ee1879ec3454e5f3c738d2d9d201395faa4b61a96c8")
    );
}

#[test]
fn hkdf_expand_prefix_is_consistent() {
    let hkdf = Hkdf::<sha2::Sha256>::extract(b"salt", b"input key material");
    let mut short = [0u8; 17];
    let mut long = [0u8; 100];
    hkdf.expand(b"info", &mut short).unwrap();
    hkdf.expand(b"info", &mut long).unwrap();
    assert_eq!(&long[..17], &short[..]);
}

#[test]
fn hkdf_expand_refuses_more_than_255_blocks() {
    let hkdf = Hkdf::<sha2::Sha256>::extract(b"salt", b"ikm");
    let mut okm = vec![0xaau8; 255 * 32 + 1];
    assert_eq!(hkdf.expand(b"info", &mut okm), Err(TlsError::CryptoError));
    assert!(okm.iter().all(|b| *b == 0xaa));
    let mut okm = vec![0u8; 255 * 32];
    assert_eq!(hkdf.expand(b"info", &mut okm), Ok(()));
}

#[test]
fn hkdf_expand_empty_output() {
    let hkdf = Hkdf::<sha2::Sha256>::extract(b"salt", b"ikm");
    let mut okm: [u8; 0] = [];
    assert_eq!(hkdf.expand(b"info", &mut okm), Ok(()));
}

#[test]
fn hkdf_from_prk_roundtrip_and_length_check() {
    let hkdf = Hkdf::<sha2::Sha256>::extract(b"salt", b"ikm");
    let again = Hkdf::<sha2::Sha256>::from_prk(hkdf.prk()).ok().unwrap();
    assert_eq!(again.prk(), hkdf.prk());
    let mut a = [0u8; 20];
    let mut b = [0u8; 20];
    hkdf.expand(b"x", &mut a).unwrap();
    again.expand(b"x", &mut b).unwrap();
    assert_eq!(a, b);
    assert!(matches!(
        Hkdf::<sha2::Sha256>::from_prk(&[0u8; 31]),
        Err(TlsError::InternalError)
    ));
    assert!(matches!(
        Hkdf::<sha2::Sha384>::from_prk(&[0u8; 32]),
        Err(TlsError::InternalError)
    ));
    assert!(Hkdf::<sha2::Sha384>::from_prk(&[0u8; 48]).is_ok());
}

#[test]
fn sha256_and_sha384_digests() {
    assert_eq!(
        <sha2::Sha256 as TlsHash>::digest(b"abc").to_vec(),
        hex("ba7816bf8f01cfea414140de5dae2223b00361a396177a9cb410ff61f20015ad")
    );
    assert_eq!(
        <sha2::Sha384 as TlsHash>::digest(b"abc").to_vec(),
        hex("cb00753f45a35e8bb5a03d699ac65007272c32ab0eded1631a8b605a43ff5bed8086072ba1e7cc2358baeca134c825a7")
    );
    let mut h = <sha2::Sha256 as TlsHash>::new();
    TlsHash::update(&mut h, b"a");
    TlsHash::update(&mut h, b"bc");
    assert_eq!(
        TlsHash::finalize(h).to_vec(),
        hex("ba7816bf8f01cfea414140de5dae2223b00361a396177a9cb410ff61f20015ad")
    );
}

#[test]
fn hmac_sha256_rfc4231_case_2_and_verify() {
    let mut mac = <HmacSha256 as TlsHmac>::new(b"Jefe");
    TlsHmac::update(&mut mac, b"what do ya want ");
    TlsHmac::update(&mut mac, b"for nothing?");
    let tag = TlsHmac::finalize(mac);
    let expected = hex("5bdcc146bf60754e6a042426089575c75a003f089d2739839dec58b964ec3843");
    assert_eq!(tag.to_vec(), expected);

    let mut mac = <HmacSha256 as TlsHmac>::new(b"Jefe");
    TlsHmac::update(&mut mac, b"what do ya want for nothing?");
    assert!(TlsHmac::verify(mac, &expected));
    let mut mac = <HmacSha256 as TlsHmac>::new(b"Jefe");
    TlsHmac::update(&mut mac, b"what do ya want for nothing?");
    assert!(!TlsHmac::verify(mac, &expected[..31]));
    let mut mac = <HmacSha256 as TlsHmac>::new(b"Jefe");
    TlsHmac::update(&mut mac, b"what do ya want for nothing!");
    assert!(!TlsHmac::verify(mac, &expected));
}

#[test]
fn byte_array_zeroed_and_len() {
    let z = <[u8; 48] as ByteArray>::zeroed();
    assert_eq!(z, [0u8; 48]);
    assert_eq!(<[u8; 48] as ByteArray>::LEN, 48);
}

#[test]
fn aes128_gcm_nist_vector_and_roundtrip() {
    let key = [0u8; 16];
    let cipher = <Aes128Gcm as TlsAead>::new(&key);
    let nonce = [0u8; 12];
    let mut buf = [0u8; 16];
    let tag = cipher.encrypt(&nonce, &[], &mut buf).unwrap();
    assert_eq!(buf.to_vec(), hex("0388dace60b6a392f328c2b971b2fe78"));
    assert_eq!(tag.to_vec(), hex("ab6e47d42cec13bdf53a67b21257bddf"));
    cipher.decrypt(&nonce, &[], &mut buf, &tag).unwrap();
    assert_eq!(buf, [0u8; 16]);
}

#[test]
fn aes256_gcm_rejects_forged_tag_and_keeps_buffer() {
    let key = [7u8; 32];
    let cipher = <Aes256Gcm as TlsAead>::new(&key);
    let nonce = [1u8; 12];
    let mut buf = *b"attack at dawn!!";
    let tag = cipher.encrypt(&nonce, b"header", &mut buf).unwrap();
    assert_ne!(&buf, b"attack at dawn!!");
    let sealed = buf;
    let mut bad_tag = tag;
    bad_tag[0] ^= 1;
    assert_eq!(cipher.decrypt(&nonce, b"header", &mut buf, &bad_tag), Err(TlsError::CryptoError));
    assert_eq!(buf, sealed);
    assert_eq!(cipher.decrypt(&nonce, b"other", &mut buf, &tag), Err(TlsError::CryptoError));
    assert_eq!(cipher.decrypt(&nonce, b"header", &mut buf, &tag), Ok(()));
    assert_eq!(&buf, b"attack at dawn!!");
}

#[test]
fn hmac_sha384_rfc4231_case_2() {
    let mut mac = <HmacSha384 as TlsHmac>::new(b"Jefe");
    TlsHmac::update(&mut mac, b"what do ya want for nothing?");
    assert_eq!(
        TlsHmac::finalize(mac).to_vec(),
        hex("af45d2e376484031617f78d2b58a6b1b9c7ef464f5a01b47e42ec3736322445e8e2240ca5e69e2c78b3239ecfab21649")
    );
}

#[test]
fn hkdf_sha384_lengths() {
    let hkdf = Hkdf::<sha2::Sha384>::extract(b"salt", b"ikm");
    assert_eq!(hkdf.prk().len(), 48);
    let mut okm = vec![0u8; 255 * 48];
    assert_eq!(hkdf.expand(b"info", &mut okm), Ok(()));
    let mut too_long = vec![0u8; 255 * 48 + 1];
    assert_eq!(hkdf.expand(b"info", &mut too_long), Err(TlsError::CryptoError));
}
