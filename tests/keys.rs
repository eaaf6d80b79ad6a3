use bls12_381::{G2Affine, Scalar as FieldScalar};
use nubls::codec::{decode_u64, encode_u64};
use nubls::{KeyError, KeyKind, PrivateKey, PublicKey, Scalar, Signature};

fn message(k: u64) -> Vec<u8> {
    G2Affine::from(G2Affine::generator() * FieldScalar::from(k)).to_compressed().to_vec()
}

fn key(seed: u8) -> PrivateKey {
    PrivateKey::random(&[seed; 64])
}

fn entropy(count: usize, salt: u8) -> Vec<[u8; 64]> {
    (0..count).map(|i| [(i as u8).wrapping_mul(31).wrapping_add(salt); 64]).collect()
}

#[test]
fn public_key_and_signature_are_deterministic() {
    let a = key(1);
    let b = PrivateKey::from_bytes(&a.to_bytes()).unwrap();
    let m = message(5);
    assert_eq!(a.public_key().unwrap().to_bytes(), b.public_key().unwrap().to_bytes());
    assert_eq!(a.sign(&m).unwrap().to_bytes(), a.sign(&m).unwrap().to_bytes());
    assert_eq!(a.sign(&m).unwrap().to_bytes(), b.sign(&m).unwrap().to_bytes());
}

#[test]
fn public_key_matches_generator_multiple() {
    let k = PrivateKey::from_bytes(&FieldScalar::from(9u64).to_bytes()).unwrap();
    let expected = bls12_381::G1Affine::from(bls12_381::G1Affine::generator() * FieldScalar::from(9u64));
    assert_eq!(k.public_key().unwrap().to_bytes(), expected.to_compressed().to_vec());
}

#[test]
fn signature_is_message_multiple() {
    let k = PrivateKey::from_bytes(&FieldScalar::from(4u64).to_bytes()).unwrap();
    let sig = k.sign(&message(3)).unwrap();
    assert_eq!(sig.to_bytes(), message(12));
}

#[test]
fn full_key_round_trip() {
    let k = key(7);
    let bytes = k.to_bytes();
    assert_eq!(bytes.len(), 32);
    let back = PrivateKey::from_bytes(&bytes).unwrap();
    assert_eq!(back, k);
    assert!(!back.is_fragment());
}

#[test]
fn fragment_round_trip() {
    let parts = key(8).split(3, 5, &entropy(2, 1)).unwrap();
    for f in &parts {
        let bytes = f.to_bytes();
        assert_eq!(bytes.len(), 64);
        let back = PrivateKey::from_bytes(&bytes).unwrap();
        assert_eq!(&back, f);
        assert!(back.is_fragment());
    }
    assert_eq!(parts[4].kind, KeyKind::Fragment { index: 5, threshold: 3 });
}

#[test]
fn public_key_and_signature_round_trip() {
    let k = key(9);
    let p = k.public_key().unwrap();
    assert_eq!(PublicKey::from_bytes(&p.to_bytes()).unwrap(), p);
    let s = k.sign(&message(2)).unwrap();
    assert_eq!(Signature::from_bytes(&s.to_bytes()).unwrap(), s);
}

#[test]
fn sign_then_verify_succeeds() {
    for seed in 1..6u8 {
        let k = key(seed);
        let m = message(seed as u64 + 10);
        let sig = k.sign(&m).unwrap();
        assert_eq!(k.public_key().unwrap().verify(&m, &sig), Ok(true));
    }
}

#[test]
fn verify_rejects_tampering() {
    let k = key(3);
    let p = k.public_key().unwrap();
    let m = message(21);
    let sig = k.sign(&m).unwrap();
    assert_eq!(p.verify(&message(22), &sig), Err(KeyError::InvalidSignature));
    assert_eq!(key(4).public_key().unwrap().verify(&m, &sig), Err(KeyError::InvalidSignature));
    let other = k.sign(&message(23)).unwrap();
    assert_eq!(p.verify(&m, &other), Err(KeyError::InvalidSignature));
    for bit in [0usize, 7, 100, 500, 767] {
        let mut bad_m = m.clone();
        bad_m[bit / 8] ^= 1 << (bit % 8);
        assert!(p.verify(&bad_m, &sig).is_err());
        let mut bad_s = sig.to_bytes();
        bad_s[bit / 8] ^= 1 << (bit % 8);
        match Signature::from_bytes(&bad_s) {
            Ok(s) => assert_eq!(p.verify(&m, &s), Err(KeyError::InvalidSignature)),
            Err(e) => assert_eq!(e, KeyError::MalformedInput),
        }
    }
}

#[test]
fn verify_rejects_malformed_message() {
    let k = key(3);
    let sig = k.sign(&message(1)).unwrap();
    let p = k.public_key().unwrap();
    assert_eq!(p.verify(&message(1)[..95], &sig), Err(KeyError::MalformedInput));
    assert_eq!(p.verify(&[0u8; 96], &sig), Err(KeyError::MalformedInput));
}

#[test]
fn fragments_cannot_sign() {
    let parts = key(5).split(2, 3, &entropy(1, 2)).unwrap();
    assert_eq!(parts[0].public_key(), Err(KeyError::NotASigningKey));
    assert_eq!(parts[0].sign(&message(1)), Err(KeyError::NotASigningKey));
    assert_eq!(parts[0].split(1, 2, &[]), Err(KeyError::NotASigningKey));
}

#[test]
fn sign_rejects_malformed_message() {
    let k = key(5);
    assert_eq!(k.sign(&[1u8; 10]), Err(KeyError::MalformedInput));
    assert_eq!(k.sign(&[0u8; 96]), Err(KeyError::MalformedInput));
}

#[test]
fn threshold_recovers_from_any_subset() {
    for n in 1..=20usize {
        for m in 1..=n {
            let k = key((n * 7 + m) as u8);
            let parts = k.split(m, n, &entropy(m - 1, n as u8)).unwrap();
            assert_eq!(parts.len(), n);
            let first: Vec<PrivateKey> = parts[..m].to_vec();
            let last: Vec<PrivateKey> = parts[n - m..].to_vec();
            assert_eq!(PrivateKey::recover(&first).unwrap().to_bytes(), k.to_bytes());
            assert_eq!(PrivateKey::recover(&last).unwrap().to_bytes(), k.to_bytes());
            assert_eq!(PrivateKey::recover(&parts).unwrap().to_bytes(), k.to_bytes());
        }
    }
}

#[test]
fn recovered_key_signs_like_the_original() {
    let k = key(11);
    let parts = k.split(3, 5, &entropy(2, 9)).unwrap();
    let picked = vec![parts[4], parts[0], parts[2]];
    let r = PrivateKey::recover(&picked).unwrap();
    assert_eq!(r.sign(&message(4)).unwrap(), k.sign(&message(4)).unwrap());
}

#[test]
fn single_share_split_holds_the_secret() {
    let k = key(12);
    let parts = k.split(1, 4, &[]).unwrap();
    for f in &parts {
        assert_eq!(f.scalar, k.scalar);
    }
}

#[test]
fn too_few_shares_are_refused() {
    let parts = key(13).split(4, 6, &entropy(3, 3)).unwrap();
    assert_eq!(PrivateKey::recover(&parts[..3]), Err(KeyError::InsufficientShares));
    assert_eq!(PrivateKey::recover(&[]), Err(KeyError::InsufficientShares));
    let repeated = vec![parts[0], parts[1], parts[2], parts[2]];
    assert_eq!(PrivateKey::recover(&repeated), Err(KeyError::InsufficientShares));
    let other = key(14).split(2, 6, &entropy(1, 3)).unwrap();
    let mixed = vec![parts[0], parts[1], parts[2], other[3]];
    assert_eq!(PrivateKey::recover(&mixed), Err(KeyError::InsufficientShares));
}

#[test]
fn recover_refuses_full_keys() {
    let parts = key(15).split(2, 3, &entropy(1, 4)).unwrap();
    let with_full = vec![parts[0], key(1), parts[1]];
    assert_eq!(PrivateKey::recover(&with_full), Err(KeyError::NotASigningKey));
}

#[test]
fn split_refuses_bad_thresholds() {
    let k = key(16);
    assert_eq!(k.split(0, 3, &[]), Err(KeyError::InvalidThresholdParameters));
    assert_eq!(k.split(4, 3, &entropy(3, 0)), Err(KeyError::InvalidThresholdParameters));
    assert_eq!(k.split(1, 0, &[]), Err(KeyError::InvalidThresholdParameters));
}

#[test]
fn decode_checks_length() {
    for len in 0..130usize {
        let bytes = vec![0u8; len];
        if len != 32 && len != 64 {
            assert_eq!(PrivateKey::from_bytes(&bytes), Err(KeyError::MalformedInput));
        }
        if len != 48 {
            assert_eq!(PublicKey::from_bytes(&bytes), Err(KeyError::MalformedInput));
        }
        if len != 96 {
            assert_eq!(Signature::from_bytes(&bytes), Err(KeyError::MalformedInput));
        }
    }
}

#[test]
fn decode_checks_contents() {
    assert_eq!(PrivateKey::from_bytes(&[0xffu8; 32]), Err(KeyError::MalformedInput));
    let mut frag = key(2).split(2, 2, &entropy(1, 1)).unwrap()[0].to_bytes();
    frag[63] = 1;
    assert_eq!(PrivateKey::from_bytes(&frag), Err(KeyError::MalformedInput));
    let mut zero_index = vec![0u8; 64];
    zero_index[40] = 1;
    assert_eq!(PrivateKey::from_bytes(&zero_index), Err(KeyError::MalformedInput));
    assert_eq!(PublicKey::from_bytes(&[0u8; 48]), Err(KeyError::MalformedInput));
}

#[test]
fn delegation_end_to_end() {
    let alice = key(21);
    let bob = key(22);
    let m = message(77);
    let sig = alice.sign(&m).unwrap();
    let designated = bob.designated_key(&alice.public_key().unwrap()).unwrap();
    let d_pub = designated.public_key().unwrap();
    let rk = alice.resigning_key(&bob.public_key().unwrap()).unwrap();
    let moved = rk.resign(&alice.public_key().unwrap(), &m, &sig).unwrap();
    assert_eq!(d_pub.verify(&m, &moved), Ok(true));
    assert_eq!(alice.public_key().unwrap().verify(&m, &moved), Err(KeyError::InvalidSignature));
    assert_ne!(moved.to_bytes(), sig.to_bytes());
}

#[test]
fn resign_refuses_forgeries() {
    let alice = key(23);
    let bob = key(24);
    let rk = alice.resigning_key(&bob.public_key().unwrap()).unwrap();
    let m = message(5);
    let forged = bob.sign(&m).unwrap();
    let a_pub = alice.public_key().unwrap();
    assert_eq!(rk.resign(&a_pub, &m, &forged), Err(KeyError::InvalidSignature));
    let good = alice.sign(&m).unwrap();
    assert_eq!(rk.resign(&a_pub, &message(6), &good), Err(KeyError::InvalidSignature));
    assert_eq!(rk.resign(&a_pub, &[0u8; 96], &good), Err(KeyError::MalformedInput));
    let moved = rk.resign(&a_pub, &m, &good).unwrap();
    let expected = G2Affine::from(
        G2Affine::from_compressed(&good.bytes).unwrap() * FieldScalar::from_bytes(&rk.scalar.bytes).unwrap(),
    );
    assert_eq!(moved.to_bytes(), expected.to_compressed().to_vec());
}

#[test]
fn delegation_refuses_unusable_keys() {
    let zero = PrivateKey::from_bytes(&[0u8; 32]).unwrap();
    let bob = key(25).public_key().unwrap();
    assert_eq!(zero.resigning_key(&bob), Err(KeyError::NotASigningKey));
    let frag = key(26).split(1, 1, &[]).unwrap()[0];
    assert_eq!(frag.designated_key(&bob), Err(KeyError::NotASigningKey));
    let signer = key(1);
    let sig = signer.sign(&message(1)).unwrap();
    assert_eq!(frag.resign(&signer.public_key().unwrap(), &message(1), &sig), Err(KeyError::NotASigningKey));
    let bad = PublicKey { bytes: [0u8; 48] };
    assert_eq!(key(27).designated_key(&bad), Err(KeyError::MalformedInput));
    assert_eq!(key(27).resigning_key(&bad), Err(KeyError::MalformedInput));
}

#[test]
fn field_arithmetic_values() {
    let two = Scalar::from_u64(2);
    let three = Scalar::from_u64(3);
    assert_eq!(two.mul(&three), Scalar::from_u64(6));
    assert_eq!(two.add(&three), Scalar::from_u64(5));
    assert_eq!(three.sub(&two), Scalar::from_u64(1));
    let minus_one = Scalar::zero().sub(&Scalar::from_u64(1));
    assert_eq!(minus_one.bytes, (-FieldScalar::one()).to_bytes());
    assert_eq!(two.invert().mul(&two), Scalar::from_u64(1));
    assert!(Scalar::zero().is_zero());
    assert!(!two.is_zero());
    let mut wide = [0u8; 64];
    wide[0] = 9;
    assert_eq!(Scalar::from_bytes_wide(&wide), Scalar::from_u64(9));
    assert_eq!(Scalar::from_bytes([0xff; 32]), None);
    assert_eq!(Scalar::from_bytes(two.bytes), Some(two));
}

#[test]
fn random_reduces_entropy() {
    let k = PrivateKey::random(&[0u8; 64]);
    assert_eq!(k.to_bytes(), vec![0u8; 32]);
    let mut e = [0u8; 64];
    e[1] = 1;
    assert_eq!(PrivateKey::random(&e).scalar, Scalar::from_u64(256));
}

#[test]
fn integer_codec_values() {
    assert_eq!(encode_u64(0x0102030405060708), [8, 7, 6, 5, 4, 3, 2, 1]);
    assert_eq!(decode_u64(&[0, 0, 8, 7, 6, 5, 4, 3, 2, 1], 2), 0x0102030405060708);
    assert_eq!(decode_u64(&encode_u64(u64::MAX), 0), u64::MAX);
}

#[test]
fn well_formedness_check() {
    assert!(key(1).is_well_formed());
    let parts = key(2).split(2, 3, &entropy(1, 0)).unwrap();
    assert!(parts[1].is_well_formed());
    let bad = PrivateKey { scalar: Scalar { bytes: [0xff; 32] }, kind: KeyKind::Full };
    assert!(!bad.is_well_formed());
    let zero_index = PrivateKey { scalar: key(3).scalar, kind: KeyKind::Fragment { index: 0, threshold: 1 } };
    assert!(!zero_index.is_well_formed());
}

#[test]
fn split_with_out_of_range_threshold_needs_no_entropy() {
    assert_eq!(key(4).split(1000, 3, &[]), Err(KeyError::InvalidThresholdParameters));
}

#[test]
fn from_u64_matches_field_encoding() {
    for x in [0u64, 1, 255, 256, 0x0102030405060708, u64::MAX] {
        assert_eq!(Scalar::from_u64(x).bytes, FieldScalar::from(x).to_bytes());
    }
}
