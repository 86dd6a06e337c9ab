use der::asn1::{AnyRef, BitStringRef, ContextSpecific, OctetStringRef, UintRef};
use der::{Decode, Encode, Reader, SliceReader, TagNumber};
use embedded_tls::byte_vec::ByteVec;
use embedded_tls::der::{ecdsa_signature_from_der, ecdsa_signature_to_der, sec1_private_key};

/// `ECDSA-Sig-Value` read with the `der` crate's own readers.
fn der_crate_sig(bytes: &[u8]) -> Option<(Vec<u8>, Vec<u8>)> {
    let mut reader = SliceReader::new(bytes).ok()?;
    let value = reader
        .sequence(|r| {
            let a = UintRef::decode(r)?;
            let b = UintRef::decode(r)?;
            Ok::<_, der::Error>((a.as_bytes().to_vec(), b.as_bytes().to_vec()))
        })
        .ok()?;
    reader.finish().ok()?;
    Some(value)
}

/// `ECPrivateKey` read with the `der` crate's own readers.
fn der_crate_sec1(bytes: &[u8]) -> Option<Vec<u8>> {
    let mut reader = SliceReader::new(bytes).ok()?;
    let key = reader
        .sequence(|r| {
            let version = u8::decode(r)?;
            let key = <&OctetStringRef>::decode(r)?;
            let _params = ContextSpecific::<AnyRef>::decode_explicit(r, TagNumber(0))?;
            let _public = ContextSpecific::<BitStringRef>::decode_explicit(r, TagNumber(1))?;
            Ok::<_, der::Error>((version, key.as_bytes().to_vec()))
        })
        .ok()?;
    reader.finish().ok()?;
    if key.0 != 1 {
        return None;
    }
    Some(key.1)
}

fn left_pad(v: &[u8], n: usize) -> Vec<u8> {
    let mut out = vec![0u8; n - v.len()];
    out.extend_from_slice(v);
    out
}

fn mutations(base: &[u8]) -> Vec<Vec<u8>> {
    let mut out = vec![base.to_vec()];
    for i in 0..base.len() {
        for delta in [1u8, 0x7f, 0x80, 0xff] {
            let mut m = base.to_vec();
            m[i] = m[i].wrapping_add(delta);
            out.push(m);
        }
        out.push(base[..i].to_vec());
        let mut removed = base.to_vec();
        removed.remove(i);
        out.push(removed);
    }
    let mut extended = base.to_vec();
    extended.push(0);
    out.push(extended);
    out
}

#[test]
fn ecdsa_sig_decoder_agrees_with_der_crate() {
    let mut samples = Vec::new();
    for (r, s) in [
        (vec![0x80u8; 4], vec![0u8, 0, 1]),
        (vec![1u8, 2, 3], vec![0x7f]),
        (vec![0u8], vec![0xffu8, 0]),
        (vec![0u8; 5], vec![0u8; 2]),
    ] {
        let mut out = ByteVec::<104>::new();
        ecdsa_signature_to_der(&r, &s, &mut out).unwrap();
        samples.push(out.as_slice().to_vec());
    }
    samples.push(vec![0x30, 0x81, 0x06, 0x02, 0x01, 0x01, 0x02, 0x01, 0x02]);
    samples.push(vec![0x30, 0x80, 0x02, 0x01, 0x01, 0x02, 0x01, 0x02, 0x00, 0x00]);
    let mut checked = 0;
    for base in samples {
        for m in mutations(&base) {
            let ours = ecdsa_signature_from_der::<8>(&m);
            let theirs = der_crate_sig(&m).filter(|(a, b)| a.len() <= 8 && b.len() <= 8);
            match (ours, theirs) {
                (Ok((r, s)), Some((a, b))) => {
                    assert_eq!(r.to_vec(), left_pad(&a, 8), "input {:02x?}", m);
                    assert_eq!(s.to_vec(), left_pad(&b, 8), "input {:02x?}", m);
                }
                (Err(_), None) => {}
                (ours, theirs) => panic!("disagreement on {:02x?}: {:?} vs {:?}", m, ours.is_ok(), theirs),
            }
            checked += 1;
        }
    }
    assert!(checked > 100);
}

#[test]
fn ecdsa_sig_encoder_agrees_with_der_crate() {
    for (r, s) in [
        (vec![0x80u8; 32], vec![0u8, 0, 1]),
        (vec![0u8; 32], vec![0x01u8; 48]),
        (vec![0x00u8, 0x90], vec![0x7fu8, 0xff]),
    ] {
        let mut out = ByteVec::<104>::new();
        ecdsa_signature_to_der(&r, &s, &mut out).unwrap();
        let a = UintRef::new(&r).unwrap().to_der().unwrap();
        let b = UintRef::new(&s).unwrap().to_der().unwrap();
        let mut body = a.clone();
        body.extend_from_slice(&b);
        let mut expected = vec![0x30, body.len() as u8];
        expected.extend_from_slice(&body);
        assert_eq!(out.as_slice(), &expected[..]);
    }
}

#[test]
fn sec1_decoder_agrees_with_der_crate() {
    let samples: Vec<Vec<u8>> = vec![
        vec![
            0x30, 0x10, 0x02, 0x01, 0x01, 0x04, 0x04, 0xde, 0xad, 0xbe, 0xef, 0xa0, 0x05, 0x06,
            0x03, 0x2b, 0x65, 0x70,
        ],
        vec![
            0x30, 0x0e, 0x02, 0x01, 0x01, 0x04, 0x02, 0x11, 0x22, 0xa1, 0x05, 0x03, 0x03, 0x00,
            0x04, 0x01,
        ],
        vec![
            0x30, 0x15, 0x02, 0x01, 0x01, 0x04, 0x01, 0x07, 0xa0, 0x06, 0xbf, 0x1f, 0x03, 0x01,
            0x02, 0x03, 0xa1, 0x05, 0x03, 0x03, 0x02, 0x04, 0x01,
        ],
        vec![0x30, 0x07, 0x02, 0x01, 0x01, 0x04, 0x02, 0x11, 0x22],
    ];
    let mut checked = 0;
    for base in samples {
        for m in mutations(&base) {
            let ours = sec1_private_key(&m).ok().map(|k| k.to_vec());
            let theirs = der_crate_sec1(&m);
            assert_eq!(ours, theirs, "input {:02x?}", m);
            checked += 1;
        }
    }
    assert!(checked > 100);
}
