use mugraph::fusion::{Input, Output};
use mugraph::types::{BlindedNote, UnblindedNote};
use sha2::{Digest, Sha256};
use mugraph::error::Error;

fn note(asset: u8, amount: u64, nonce: u8) -> UnblindedNote {
    UnblindedNote { asset_id: [asset; 32], amount, nonce: [nonce; 32] }
}

#[test]
fn unblinded_note_round_trip() {
    for v in [note(1, 0, 2), note(0xff, u64::MAX, 0), note(7, 0x0102030405060708, 9)] {
        let bytes = v.to_bytes();
        assert_eq!(bytes.len(), UnblindedNote::SIZE);
        let back = UnblindedNote::from_slice(&bytes).unwrap();
        assert_eq!(back.asset_id, v.asset_id);
        assert_eq!(back.amount, v.amount);
        assert_eq!(back.nonce, v.nonce);
    }
}

#[test]
fn unblinded_note_layout_is_little_endian_amount_between_hashes() {
    let bytes = note(1, 0x0102030405060708, 2).to_bytes();
    assert_eq!(&bytes[..32], &[1u8; 32][..]);
    assert_eq!(&bytes[32..40], &[8, 7, 6, 5, 4, 3, 2, 1][..]);
    assert_eq!(&bytes[40..], &[2u8; 32][..]);
}

#[test]
fn wrong_length_fails_to_decode() {
    assert_eq!(UnblindedNote::from_slice(&[0u8; 71]).unwrap_err(), Error::InvalidEncoding);
    assert_eq!(BlindedNote::from_slice(&[0u8; 73]).unwrap_err(), Error::InvalidEncoding);
    assert_eq!(Input::from_slice(&[0u8; 143]).unwrap_err(), Error::InvalidEncoding);
    assert_eq!(Output::from_slice(&[]).unwrap_err(), Error::InvalidEncoding);
}

#[test]
fn blinded_note_round_trip() {
    let v = BlindedNote { asset_id: [3; 32], amount: 99, secret: [4; 32] };
    let bytes = v.to_bytes();
    assert_eq!(bytes.len(), BlindedNote::SIZE);
    let back = BlindedNote::from_slice(&bytes).unwrap();
    assert_eq!((back.asset_id, back.amount, back.secret), (v.asset_id, v.amount, v.secret));
}

#[test]
fn input_and_output_round_trip() {
    let v = Input { inputs: [note(1, 5, 2), note(1, 6, 3)] };
    let bytes = v.to_bytes();
    assert_eq!(bytes.len(), Input::SIZE);
    let back = Input::from_slice(&bytes).unwrap();
    assert_eq!(back.inputs[1].amount, 6);
    assert_eq!(back.inputs[0].nonce, [2; 32]);
    let o = Output { a: [1; 32], b: [2; 32], c: [3; 32] };
    let bytes = o.to_bytes();
    assert_eq!(bytes.len(), Output::SIZE);
    let back = Output::from_slice(&bytes).unwrap();
    assert_eq!((back.a, back.b, back.c), (o.a, o.b, o.c));
}

#[test]
fn note_digest_is_sha256_of_encoding() {
    let v = UnblindedNote { asset_id: [0; 32], amount: 0, nonce: [0; 32] };
    let expected: [u8; 32] = Sha256::digest(v.to_bytes()).into();
    assert_eq!(v.digest(), expected);
    assert_ne!(v.digest(), [0u8; 32]);
    let w = BlindedNote { asset_id: [5; 32], amount: 1, secret: [6; 32] };
    let expected: [u8; 32] = Sha256::digest(w.to_bytes()).into();
    assert_eq!(w.digest(), expected);
}

#[test]
fn sha256_of_abc() {
    let d: [u8; 32] = Sha256::digest(b"abc").into();
    assert_eq!(
        d,
        [
            0xba, 0x78, 0x16, 0xbf, 0x8f, 0x01, 0xcf, 0xea, 0x41, 0x41, 0x40, 0xde, 0x5d, 0xae,
            0x22, 0x23, 0xb0, 0x03, 0x61, 0xa3, 0x96, 0x17, 0x7a, 0x9c, 0xb4, 0x10, 0xff, 0x61,
            0xf2, 0x00, 0x15, 0xad
        ]
    );
}
