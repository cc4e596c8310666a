use crate::error::Error;
use sha2::{Digest, Sha256};
use vstd::bytes::{
    lemma_auto_spec_u64_to_from_le_bytes, spec_u64_from_le_bytes, spec_u64_to_le_bytes,
    u64_from_le_bytes, u64_to_le_bytes,
};
use vstd::prelude::*;

verus! {

/// A 32-byte digest: an asset identifier or a commitment.
pub type Hash = [u8; 32];

/// Number of bytes in the encoding of a `Hash`.
pub const HASH_SIZE: usize = 32;

/// Number of bytes in the encoding of a `u64`.
pub const AMOUNT_SIZE: usize = 8;

/// The hash whose bytes are `s`, for a sequence of 32 bytes.
pub open spec fn hash_from(s: Seq<u8>) -> Hash {
    choose|h: Hash| h@ == s
}

/// A hash is all zero bytes: it stands for "no value".
pub open spec fn hash_is_empty(h: Seq<u8>) -> bool {
    forall|i: int| 0 <= i < h.len() ==> h[i] == 0
}

/// A hash is determined by its bytes.
pub proof fn lemma_hash_from(h: Hash)
    ensures
        hash_from(h@) == h,
{
    assert(exists|x: Hash| #[trigger] x@ == h@) by {
        assert(h@ == h@);
    }
    let g = hash_from(h@);
    assert(g =~= h);
}

/// Appends the bytes of `h` to `out`.
pub fn push_hash(out: &mut Vec<u8>, h: &Hash)
    ensures
        final(out)@ == old(out)@ + h@,
{
    let mut i: usize = 0;
    while i < HASH_SIZE
        invariant
            0 <= i <= HASH_SIZE,
            out@ == old(out)@ + h@.subrange(0, i as int),
        decreases HASH_SIZE - i,
    {
        out.push(h[i]);
        i += 1;
        assert(h@.subrange(0, i as int) == h@.subrange(0, i - 1).push(h@[i - 1]));
    }
    assert(h@.subrange(0, 32) == h@);
}

/// Appends `bytes` to `out`.
pub fn push_bytes(out: &mut Vec<u8>, bytes: &[u8])
    ensures
        final(out)@ == old(out)@ + bytes@,
{
    let mut i: usize = 0;
    while i < bytes.len()
        invariant
            0 <= i <= bytes@.len(),
            out@ == old(out)@ + bytes@.subrange(0, i as int),
        decreases bytes@.len() - i,
    {
        out.push(bytes[i]);
        i += 1;
        assert(bytes@.subrange(0, i as int) == bytes@.subrange(0, i - 1).push(bytes@[i - 1]));
    }
    assert(bytes@.subrange(0, bytes@.len() as int) == bytes@);
}

/// Reads the hash stored at `off` in `s`.
pub fn read_hash(s: &[u8], off: usize) -> (h: Hash)
    requires
        off + HASH_SIZE <= s@.len(),
    ensures
        h@ == s@.subrange(off as int, off + HASH_SIZE),
        h == hash_from(s@.subrange(off as int, off + HASH_SIZE)),
{
    let n = s.len();
    let mut h: Hash = [0u8; 32];
    let mut i: usize = 0;
    while i < HASH_SIZE
        invariant
            0 <= i <= HASH_SIZE,
            n == s@.len(),
            off + HASH_SIZE <= s@.len(),
            forall|j: int| 0 <= j < i ==> h@[j] == s@[off + j],
        decreases HASH_SIZE - i,
    {
        h[i] = s[off + i];
        i += 1;
    }
    assert(h@ =~= s@.subrange(off as int, off + HASH_SIZE));
    proof {
        lemma_hash_from(h);
    }
    h
}

/// Reads the little-endian `u64` stored at `off` in `s`.
pub fn read_amount(s: &[u8], off: usize) -> (v: u64)
    requires
        off + AMOUNT_SIZE <= s@.len(),
    ensures
        v == spec_u64_from_le_bytes(s@.subrange(off as int, off + AMOUNT_SIZE)),
{
    let n = s.len();
    let mut b: Vec<u8> = Vec::new();
    let mut i: usize = 0;
    while i < AMOUNT_SIZE
        invariant
            0 <= i <= AMOUNT_SIZE,
            n == s@.len(),
            off + AMOUNT_SIZE <= s@.len(),
            b@ == s@.subrange(off as int, off + i),
        decreases AMOUNT_SIZE - i,
    {
        b.push(s[off + i]);
        i += 1;
        assert(s@.subrange(off as int, off + i) == s@.subrange(off as int, off + i - 1).push(
            s@[off + i - 1],
        ));
    }
    u64_from_le_bytes(b.as_slice())
}

/// Whether every byte of `h` is zero.
pub fn is_empty_hash(h: &Hash) -> (r: bool)
    ensures
        r == hash_is_empty(h@),
{
    let mut i: usize = 0;
    while i < HASH_SIZE
        invariant
            0 <= i <= HASH_SIZE,
            forall|j: int| 0 <= j < i ==> h@[j] == 0,
        decreases HASH_SIZE - i,
    {
        if h[i] != 0 {
            return false;
        }
        i += 1;
    }
    true
}

/// Whether two hashes hold the same bytes.
pub fn hash_eq(a: &Hash, b: &Hash) -> (r: bool)
    ensures
        r == (a@ == b@),
        r == (*a == *b),
{
    let mut i: usize = 0;
    while i < HASH_SIZE
        invariant
            0 <= i <= HASH_SIZE,
            forall|j: int| 0 <= j < i ==> a@[j] == b@[j],
        decreases HASH_SIZE - i,
    {
        if a[i] != b[i] {
            return false;
        }
        i += 1;
    }
    assert(a@ =~= b@);
    assert(*a =~= *b);
    true
}

/// The SHA-256 digest of a byte string.
pub uninterp spec fn sha256_of(data: Seq<u8>) -> Seq<u8>;

/// Relies on sha2's `Sha256::digest`: the 32-byte SHA-256 digest of `data`.
#[verifier::external_body]
pub(crate) fn sha256(data: &[u8]) -> (r: Hash)
    ensures
        r@ == sha256_of(data@),
{
    Sha256::digest(data).into()
}

/// A note of the fusion path: an amount of an asset with its nonce.
#[derive(Debug, Clone, Copy)]
pub struct UnblindedNote {
    pub asset_id: Hash,
    pub amount: u64,
    pub nonce: Hash,
}

impl UnblindedNote {
    /// Number of bytes in the encoding.
    pub const SIZE: usize = 72;

    /// The canonical encoding: asset id, amount (little-endian), nonce.
    pub open spec fn encoding(self) -> Seq<u8> {
        self.asset_id@ + spec_u64_to_le_bytes(self.amount) + self.nonce@
    }

    /// The note that `s` encodes, if `s` has the right length.
    pub open spec fn decoding(s: Seq<u8>) -> Option<UnblindedNote> {
        if s.len() == Self::SIZE {
            Some(
                UnblindedNote {
                    asset_id: hash_from(s.subrange(0, 32)),
                    amount: spec_u64_from_le_bytes(s.subrange(32, 40)),
                    nonce: hash_from(s.subrange(40, 72)),
                },
            )
        } else {
            None
        }
    }

    /// Encodes the note into `Self::SIZE` bytes.
    pub fn to_bytes(&self) -> (r: Vec<u8>)
        ensures
            r@ == self.encoding(),
            r@.len() == Self::SIZE,
    {
        proof {
            lemma_auto_spec_u64_to_from_le_bytes();
        }
        let mut r: Vec<u8> = Vec::new();
        push_hash(&mut r, &self.asset_id);
        let amount = u64_to_le_bytes(self.amount);
        push_bytes(&mut r, amount.as_slice());
        push_hash(&mut r, &self.nonce);
        r
    }

    /// Reads the note encoded at `off` in `s`.
    pub fn read_at(s: &[u8], off: usize) -> (r: UnblindedNote)
        requires
            off + Self::SIZE <= s@.len(),
        ensures
            Self::decoding(s@.subrange(off as int, off + Self::SIZE)) == Some(r),
    {
        let len = s.len();
        assert(off + Self::SIZE <= len);
        let asset_id = read_hash(s, off);
        let amount = read_amount(s, off + 32);
        let nonce = read_hash(s, off + 40);
        let ghost sub = s@.subrange(off as int, off + Self::SIZE);
        assert(sub.subrange(0, 32) =~= s@.subrange(off as int, off + 32));
        assert(sub.subrange(32, 40) =~= s@.subrange(off + 32, off + 40));
        assert(sub.subrange(40, 72) =~= s@.subrange(off + 40, off + 72));
        UnblindedNote { asset_id, amount, nonce }
    }

    /// Decodes a note; fails when `s` does not hold exactly `Self::SIZE` bytes.
    pub fn from_slice(s: &[u8]) -> (r: Result<UnblindedNote, Error>)
        ensures
            match Self::decoding(s@) {
                Some(v) => r == Ok::<UnblindedNote, Error>(v),
                None => r == Err::<UnblindedNote, Error>(Error::InvalidEncoding),
            },
    {
        if s.len() != Self::SIZE {
            return Err(Error::InvalidEncoding);
        }
        let r = Self::read_at(s, 0);
        assert(s@.subrange(0, 72) == s@);
        Ok(r)
    }
}

/// Decoding the encoding of an unblinded note gives the note back, and the
/// encoding is exactly `UnblindedNote::SIZE` bytes long.
pub proof fn lemma_unblinded_note_round_trip(v: UnblindedNote)
    ensures
        v.encoding().len() == UnblindedNote::SIZE,
        UnblindedNote::decoding(v.encoding()) == Some(v),
{
    lemma_auto_spec_u64_to_from_le_bytes();
    let s = v.encoding();
    assert(s.subrange(0, 32) =~= v.asset_id@);
    assert(s.subrange(32, 40) =~= spec_u64_to_le_bytes(v.amount));
    assert(s.subrange(40, 72) =~= v.nonce@);
    lemma_hash_from(v.asset_id);
    lemma_hash_from(v.nonce);
}

impl UnblindedNote {
    /// The SHA-256 digest of the note's encoding.
    pub fn digest(&self) -> (r: Hash)
        ensures
            r@ == sha256_of(self.encoding()),
    {
        let bytes = self.to_bytes();
        sha256(bytes.as_slice())
    }
}

/// A note produced by fusion, not yet signed: its `secret` is the seed to be
/// blinded and presented for signing.
#[derive(Debug, Clone, Copy)]
pub struct BlindedNote {
    pub asset_id: Hash,
    pub amount: u64,
    pub secret: Hash,
}

impl BlindedNote {
    /// Number of bytes in the encoding.
    pub const SIZE: usize = 72;

    /// The canonical encoding: asset id, amount (little-endian), secret.
    pub open spec fn encoding(self) -> Seq<u8> {
        self.asset_id@ + spec_u64_to_le_bytes(self.amount) + self.secret@
    }

    /// The note that `s` encodes, if `s` has the right length.
    pub open spec fn decoding(s: Seq<u8>) -> Option<BlindedNote> {
        if s.len() == Self::SIZE {
            Some(
                BlindedNote {
                    asset_id: hash_from(s.subrange(0, 32)),
                    amount: spec_u64_from_le_bytes(s.subrange(32, 40)),
                    secret: hash_from(s.subrange(40, 72)),
                },
            )
        } else {
            None
        }
    }

    /// Encodes the note into `Self::SIZE` bytes.
    pub fn to_bytes(&self) -> (r: Vec<u8>)
        ensures
            r@ == self.encoding(),
            r@.len() == Self::SIZE,
    {
        proof {
            lemma_auto_spec_u64_to_from_le_bytes();
        }
        let mut r: Vec<u8> = Vec::new();
        push_hash(&mut r, &self.asset_id);
        let amount = u64_to_le_bytes(self.amount);
        push_bytes(&mut r, amount.as_slice());
        push_hash(&mut r, &self.secret);
        r
    }

    /// Decodes a note; fails when `s` does not hold exactly `Self::SIZE` bytes.
    pub fn from_slice(s: &[u8]) -> (r: Result<BlindedNote, Error>)
        ensures
            match Self::decoding(s@) {
                Some(v) => r == Ok::<BlindedNote, Error>(v),
                None => r == Err::<BlindedNote, Error>(Error::InvalidEncoding),
            },
    {
        if s.len() != Self::SIZE {
            return Err(Error::InvalidEncoding);
        }
        let asset_id = read_hash(s, 0);
        let amount = read_amount(s, 32);
        let secret = read_hash(s, 40);
        Ok(BlindedNote { asset_id, amount, secret })
    }

    /// The SHA-256 digest of the note's encoding.
    pub fn digest(&self) -> (r: Hash)
        ensures
            r@ == sha256_of(self.encoding()),
    {
        let bytes = self.to_bytes();
        sha256(bytes.as_slice())
    }
}

/// Decoding the encoding of a blinded note gives the note back, and the
/// encoding is exactly `BlindedNote::SIZE` bytes long.
pub proof fn lemma_blinded_note_round_trip(v: BlindedNote)
    ensures
        v.encoding().len() == BlindedNote::SIZE,
        BlindedNote::decoding(v.encoding()) == Some(v),
{
    lemma_auto_spec_u64_to_from_le_bytes();
    let s = v.encoding();
    assert(s.subrange(0, 32) =~= v.asset_id@);
    assert(s.subrange(32, 40) =~= spec_u64_to_le_bytes(v.amount));
    assert(s.subrange(40, 72) =~= v.secret@);
    lemma_hash_from(v.asset_id);
    lemma_hash_from(v.secret);
}

} // verus!
