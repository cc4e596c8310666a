use mugraph::crypto::{
    blind, blind_with, public_key_of, sign_blinded, sign_blinded_with,
    unblind_and_verify_signature, verify, verify_dleq_proof, verify_unblinded_point, DLEQProof,
    Keypair, Point, Scalar, Signature,
};
use mugraph::error::Error;

fn scalar(n: u8) -> Scalar {
    let mut bytes = [0u8; 32];
    bytes[0] = n;
    Scalar::from_bytes_mod_order(bytes)
}

fn keypair(n: u8) -> Keypair {
    Keypair::new(scalar(n))
}

fn curve_point(message: &[u8]) -> Point {
    blind_with(message, &scalar(0)).0
}

fn zero_signature() -> Signature {
    Signature::from_slice(&[0u8; 64]).unwrap()
}

fn one_more(s: &Scalar) -> Scalar {
    let mut bytes = s.to_bytes();
    let mut i = 0;
    loop {
        let (v, carry) = bytes[i].overflowing_add(1);
        bytes[i] = v;
        if !carry {
            break;
        }
        i += 1;
    }
    Scalar::from_bytes_mod_order(bytes)
}

#[test]
fn test_blind_diffie_hellman_flow() {
    for (key, message) in [(7u8, &b"hello"[..]), (200, &b""[..]), (31, &[0u8, 1, 2, 255][..])] {
        let kp = keypair(key);
        let (_, r, b_prime) = blind(message);
        let (c_prime, proof) = sign_blinded(&kp.secret_key(), &b_prime);
        let c = unblind_and_verify_signature(&c_prime, &r, &kp.public_key(), &proof, &b_prime)
            .expect("proof verifies");
        assert_eq!(verify_unblinded_point(&kp.secret_key(), message, &c), Ok(()));
    }
}

#[test]
fn test_blind_flow_with_fixed_randomness() {
    let kp = keypair(9);
    let (y, r, b_prime) = blind_with(b"secret", &scalar(5));
    assert_eq!(y.to_bytes(), curve_point(b"secret").to_bytes());
    assert_ne!(b_prime.to_bytes(), y.to_bytes());
    let (c_prime, proof) = sign_blinded_with(&kp.secret_key(), &b_prime, &scalar(11));
    assert_eq!(verify_dleq_proof(&kp.public_key(), &b_prime, &c_prime, &proof), Ok(()));
    let c = unblind_and_verify_signature(&c_prime, &r, &kp.public_key(), &proof, &b_prime).unwrap();
    assert_eq!(verify_unblinded_point(&kp.secret_key(), b"secret", &c), Ok(()));
    assert_eq!(
        verify_unblinded_point(&kp.secret_key(), b"other", &c),
        Err(Error::InvalidUnblindedPoint)
    );
}

#[test]
fn test_schnorr_signature_tampering() {
    let kp = keypair(42);
    let (_, r, b_prime) = blind(b"tamper");
    let (c_prime, proof) = sign_blinded(&kp.secret_key(), &b_prime);
    let tampered = DLEQProof { e: one_more(&proof.e), s: proof.s };
    assert!(matches!(
        unblind_and_verify_signature(&c_prime, &r, &kp.public_key(), &tampered, &b_prime),
        Err(Error::InvalidDLEQProof)
    ));
    let tampered = DLEQProof { e: proof.e, s: one_more(&proof.s) };
    assert_eq!(
        verify_dleq_proof(&kp.public_key(), &b_prime, &c_prime, &tampered),
        Err(Error::InvalidDLEQProof)
    );
}

#[test]
fn dleq_proof_fails_under_other_key() {
    let kp = keypair(3);
    let other = keypair(4);
    let (_, _, b_prime) = blind(b"x");
    let (c_prime, proof) = sign_blinded(&kp.secret_key(), &b_prime);
    assert_eq!(
        verify_dleq_proof(&other.public_key(), &b_prime, &c_prime, &proof),
        Err(Error::InvalidDLEQProof)
    );
}

#[test]
fn unblinded_point_fails_with_wrong_key() {
    let kp = keypair(12);
    let (_, r, b_prime) = blind(b"note");
    let (c_prime, proof) = sign_blinded(&kp.secret_key(), &b_prime);
    let c = unblind_and_verify_signature(&c_prime, &r, &kp.public_key(), &proof, &b_prime).unwrap();
    assert_eq!(verify_unblinded_point(&scalar(13), b"note", &c), Err(Error::InvalidUnblindedPoint));
}

#[test]
fn schnorr_signature_verifies_only_its_message() {
    let kp = keypair(77);
    let sig = mugraph::crypto::sign_with(&kp, b"nonce", &scalar(99));
    assert_eq!(verify(&kp.public_key(), b"nonce", &sig), Ok(()));
    assert_eq!(verify(&kp.public_key(), b"other", &sig), Err(Error::InvalidSignature));
    assert_eq!(verify(&keypair(78).public_key(), b"nonce", &sig), Err(Error::InvalidSignature));
}

#[test]
fn hash_to_curve_is_deterministic_and_changes_the_input() {
    let a = curve_point(b"abc");
    let b = curve_point(b"abc");
    let c = curve_point(b"abd");
    assert!(a.equals(&b));
    assert!(!a.equals(&c));
    assert_ne!(&a.to_bytes()[..3], &b"abc"[..]);
}

#[test]
fn generator_round_trips_through_bytes() {
    let g = public_key_of(&scalar(1));
    // The Ristretto basepoint's canonical encoding.
    assert_eq!(g.to_bytes()[0], 0xe2);
    assert_eq!(g.to_bytes()[31], 0x76);
    let mut bytes = [0u8; 64];
    bytes[..32].copy_from_slice(&g.to_bytes());
    let back = Signature::from_slice(&bytes).unwrap();
    assert!(back.r.equals(&g));
}

#[test]
fn signature_encoding_round_trip() {
    let kp = keypair(5);
    let sig = mugraph::crypto::sign_with(&kp, b"m", &scalar(8));
    let bytes = sig.to_bytes();
    assert_eq!(bytes.len(), Signature::SIZE);
    let back = Signature::from_slice(&bytes).unwrap();
    assert_eq!(back.to_bytes(), bytes);
    assert!(back.r.equals(&sig.r));
    assert_eq!(back.s.to_bytes(), sig.s.to_bytes());
    assert_eq!(Signature::from_slice(&bytes[..63]).unwrap_err(), Error::InvalidEncoding);
    let mut bad = bytes.clone();
    bad[..32].copy_from_slice(&[0xff; 32]);
    assert_eq!(Signature::from_slice(&bad).unwrap_err(), Error::InvalidEncoding);
}

#[test]
fn zero_signature_is_recognised() {
    let zero = zero_signature();
    assert!(zero.is_zero_signature());
    let kp = keypair(5);
    assert!(!mugraph::crypto::sign_with(&kp, b"m", &scalar(8)).is_zero_signature());
}

#[test]
fn keypair_public_key_is_generator_times_secret() {
    let kp = keypair(6);
    assert!(kp.public_key().equals(&public_key_of(&scalar(6))));
    assert!(!kp.public_key().equals(&public_key_of(&scalar(7))));
}

#[test]
fn scalars_are_reduced() {
    // The group order, little-endian, reduces to zero.
    let order: [u8; 32] = [
        0xed, 0xd3, 0xf5, 0x5c, 0x1a, 0x63, 0x12, 0x58, 0xd6, 0x9c, 0xf7, 0xa2, 0xde, 0xf9,
        0xde, 0x14, 0, 0, 0, 0, 0, 0, 0, 0, 0, 0, 0, 0, 0, 0, 0, 0x10,
    ];
    assert_eq!(Scalar::from_bytes_mod_order(order).to_bytes(), [0u8; 32]);
    let mut bytes = [0u8; 64];
    bytes[32..].copy_from_slice(&order);
    assert_eq!(Signature::from_slice(&bytes).unwrap_err(), Error::InvalidEncoding);
}
