use embedded_tls::byte_vec::ByteVec;
use embedded_tls::der::{ecdsa_signature_from_der, ecdsa_signature_to_der, sec1_private_key, uint_to_array};
use embedded_tls::error::TlsError;

#[test]
fn ecdsa_der_roundtrip() {
    let mut r = [0xffu8; 32];
    let mut s = [0x01u8; 32];
    r[0] = 0x80;
    s[0] = 0x00;
    s[1] = 0x00;

    let mut der = ByteVec::<104>::new();
    ecdsa_signature_to_der(&r, &s, &mut der).unwrap();
    // 0x30 len 0x02 0x21 0x00 r[32] 0x02 0x1e s[2..]
    assert_eq!(der.len(), 2 + 2 + 33 + 2 + 30);
    assert_eq!(&der.as_slice()[..5], &[0x30, 67, 0x02, 33, 0x00]);

    let (r2, s2) = ecdsa_signature_from_der::<32>(der.as_slice()).unwrap();
    assert_eq!(r, r2);
    assert_eq!(s, s2);
}

#[test]
fn ecdsa_der_rejects_trailing_data() {
    let mut der = ByteVec::<104>::new();
    ecdsa_signature_to_der(&[1u8; 32], &[2u8; 32], &mut der).unwrap();
    der.push(0).unwrap();
    assert!(ecdsa_signature_from_der::<32>(der.as_slice()).is_err());
}

#[test]
fn sec1_private_key_parses() {
    // SEQUENCE { INTEGER 1, OCTET STRING (4 bytes), [0] { OID } }
    let der = [
        0x30, 0x10, 0x02, 0x01, 0x01, 0x04, 0x04, 0xde, 0xad, 0xbe, 0xef, 0xa0, 0x05, 0x06,
        0x03, 0x2b, 0x65, 0x70,
    ];
    assert_eq!(sec1_private_key(&der).unwrap(), &[0xde, 0xad, 0xbe, 0xef]);
}

#[test]
fn sec1_private_key_with_public_key() {
    // SEQUENCE { INTEGER 1, OCTET STRING (2 bytes), [1] { BIT STRING 0 unused, 04 01 } }
    let der = [
        0x30, 0x0e, 0x02, 0x01, 0x01, 0x04, 0x02, 0x11, 0x22, 0xa1, 0x05, 0x03, 0x03, 0x00,
        0x04, 0x01,
    ];
    assert_eq!(sec1_private_key(&der).unwrap(), &[0x11, 0x22]);
    // Only the mandatory fields.
    let bare = [0x30, 0x07, 0x02, 0x01, 0x01, 0x04, 0x02, 0x11, 0x22];
    assert_eq!(sec1_private_key(&bare).unwrap(), &[0x11, 0x22]);
}

#[test]
fn sec1_private_key_rejects_malformed_input() {
    let good = [0x30, 0x07, 0x02, 0x01, 0x01, 0x04, 0x02, 0x11, 0x22];
    // Version 2.
    let mut v2 = good;
    v2[4] = 0x02;
    assert_eq!(sec1_private_key(&v2), Err(TlsError::DecodeError));
    // Trailing byte after the sequence.
    let mut trailing = good.to_vec();
    trailing.push(0);
    assert_eq!(sec1_private_key(&trailing), Err(TlsError::DecodeError));
    // Sequence length too long.
    let mut long = good;
    long[1] = 0x08;
    assert_eq!(sec1_private_key(&long), Err(TlsError::DecodeError));
    // Non-canonical version encoding.
    let padded = [0x30, 0x08, 0x02, 0x02, 0x00, 0x01, 0x04, 0x02, 0x11, 0x22];
    assert_eq!(sec1_private_key(&padded), Err(TlsError::DecodeError));
    // A primitive [0] field.
    let primitive = [0x30, 0x09, 0x02, 0x01, 0x01, 0x04, 0x02, 0x11, 0x22, 0x80, 0x00];
    assert_eq!(sec1_private_key(&primitive), Err(TlsError::DecodeError));
    // A bit string with too many unused bits.
    let bits = [
        0x30, 0x0e, 0x02, 0x01, 0x01, 0x04, 0x02, 0x11, 0x22, 0xa1, 0x05, 0x03, 0x03, 0x08,
        0x04, 0x01,
    ];
    assert_eq!(sec1_private_key(&bits), Err(TlsError::DecodeError));
    // An unknown field after the key.
    let extra = [0x30, 0x0a, 0x02, 0x01, 0x01, 0x04, 0x02, 0x11, 0x22, 0x05, 0x01, 0x00];
    assert_eq!(sec1_private_key(&extra), Err(TlsError::DecodeError));
    assert_eq!(sec1_private_key(&[]), Err(TlsError::DecodeError));
}

#[test]
fn ecdsa_der_rejects_non_canonical_encodings() {
    // Long-form length for a short sequence.
    let long_form = [0x30, 0x81, 0x06, 0x02, 0x01, 0x01, 0x02, 0x01, 0x02];
    assert_eq!(ecdsa_signature_from_der::<32>(&long_form), Err(TlsError::DecodeError));
    // Negative integer.
    let negative = [0x30, 0x06, 0x02, 0x01, 0x81, 0x02, 0x01, 0x02];
    assert_eq!(ecdsa_signature_from_der::<32>(&negative), Err(TlsError::DecodeError));
    // Superfluous leading zero.
    let padded = [0x30, 0x07, 0x02, 0x02, 0x00, 0x01, 0x02, 0x01, 0x02];
    assert_eq!(ecdsa_signature_from_der::<32>(&padded), Err(TlsError::DecodeError));
    // Empty integer.
    let empty = [0x30, 0x05, 0x02, 0x00, 0x02, 0x01, 0x02];
    assert_eq!(ecdsa_signature_from_der::<32>(&empty), Err(TlsError::DecodeError));
    // Well-formed, small values are left-padded.
    let ok = [0x30, 0x07, 0x02, 0x02, 0x00, 0x81, 0x02, 0x01, 0x02];
    let (r, s) = ecdsa_signature_from_der::<4>(&ok).unwrap();
    assert_eq!(r, [0, 0, 0, 0x81]);
    assert_eq!(s, [0, 0, 0, 2]);
    // Too large for the requested size.
    assert_eq!(ecdsa_signature_from_der::<0>(&ok), Err(TlsError::DecodeError));
}

#[test]
fn ecdsa_der_to_der_out_of_room() {
    let mut small = ByteVec::<10>::new();
    small.push(9).unwrap();
    assert_eq!(ecdsa_signature_to_der(&[1u8; 32], &[2u8; 32], &mut small), Err(TlsError::EncodeError));
    assert_eq!(small.len(), 0);
    // Integers too large for any signature: the buffer is left alone.
    let mut out = ByteVec::<200>::new();
    out.push(9).unwrap();
    assert_eq!(ecdsa_signature_to_der(&[0xffu8; 60], &[2u8; 60], &mut out), Err(TlsError::EncodeError));
    assert_eq!(out.as_slice(), &[9]);
}

#[test]
fn ecdsa_der_zero_and_leading_zeros() {
    let mut der = ByteVec::<104>::new();
    ecdsa_signature_to_der(&[0u8; 3], &[0, 0, 5], &mut der).unwrap();
    assert_eq!(der.as_slice(), &[0x30, 0x06, 0x02, 0x01, 0x00, 0x02, 0x01, 0x05]);
    let (r, s) = ecdsa_signature_from_der::<3>(der.as_slice()).unwrap();
    assert_eq!(r, [0, 0, 0]);
    assert_eq!(s, [0, 0, 5]);
}

#[test]
fn uint_to_array_pads_and_refuses_overflow() {
    assert_eq!(uint_to_array::<4>(&[1, 2]), Ok([0, 0, 1, 2]));
    assert_eq!(uint_to_array::<2>(&[1, 2, 3]), Err(TlsError::DecodeError));
}
