use crate::error::Error;
use crate::types::{
    hash_eq, hash_from, hash_is_empty, is_empty_hash, lemma_blinded_note_round_trip,
    lemma_hash_from, lemma_unblinded_note_round_trip, push_hash, read_hash, sha256, sha256_of,
    BlindedNote, UnblindedNote,
};
use vstd::prelude::*;

verus! {

/// The two notes that a fusion consumes.
#[derive(Debug, Clone, Copy)]
pub struct Input {
    pub inputs: [UnblindedNote; 2],
}

/// The public commitment of a fusion: the digests of both inputs and of the
/// produced note.
#[derive(Debug, Clone, Copy)]
pub struct Output {
    pub a: crate::types::Hash,
    pub b: crate::types::Hash,
    pub c: crate::types::Hash,
}

/// Domain separator hashed in front of the two input digests to derive the
/// produced note's secret ("mugraph:fusion:output").
pub const OUTPUT_SEP: crate::types::Hash = [
    109, 117, 103, 114, 97, 112, 104, 58, 102, 117, 115, 105, 111, 110, 58, 111, 117, 116, 112,
    117, 116, 0, 0, 0, 0, 0, 0, 0, 0, 0, 0, 0,
];

/// Start of the region that holds the encoded `Input`.
pub const FUSION_STDIN_START: usize = 0;

/// Start of the region that receives the encoded `BlindedNote`.
pub const FUSION_STDOUT_START: usize = 144;

/// Start of the region that receives the encoded `Output`.
pub const FUSION_JOURNAL_START: usize = 216;

/// Size of the whole fusion buffer.
pub const FUSION_TOTAL_SIZE: usize = 312;

impl Input {
    /// Number of bytes in the encoding.
    pub const SIZE: usize = 144;

    /// The canonical encoding: both notes in order.
    pub open spec fn encoding(self) -> Seq<u8> {
        self.inputs[0].encoding() + self.inputs[1].encoding()
    }

    /// The pair of notes that `s` encodes, if `s` has the right length.
    pub open spec fn decoding(s: Seq<u8>) -> Option<Input> {
        if s.len() == Self::SIZE {
            Some(
                Input {
                    inputs: [
                        UnblindedNote::decoding(s.subrange(0, 72)).unwrap(),
                        UnblindedNote::decoding(s.subrange(72, 144)).unwrap(),
                    ],
                },
            )
        } else {
            None
        }
    }

    /// Encodes both notes into `Self::SIZE` bytes.
    pub fn to_bytes(&self) -> (r: Vec<u8>)
        ensures
            r@ == self.encoding(),
            r@.len() == Self::SIZE,
    {
        let mut r = self.inputs[0].to_bytes();
        let mut second = self.inputs[1].to_bytes();
        r.append(&mut second);
        r
    }

    /// Reads the pair of notes encoded at `off` in `s`.
    pub fn read_at(s: &[u8], off: usize) -> (r: Input)
        requires
            off + Self::SIZE <= s@.len(),
        ensures
            Self::decoding(s@.subrange(off as int, off + Self::SIZE)) == Some(r),
    {
        let len = s.len();
        assert(off + Self::SIZE <= len);
        let a = UnblindedNote::read_at(s, off);
        let b = UnblindedNote::read_at(s, off + 72);
        let ghost sub = s@.subrange(off as int, off + Self::SIZE);
        assert(sub.subrange(0, 72) =~= s@.subrange(off as int, off + 72));
        assert(sub.subrange(72, 144) =~= s@.subrange(off + 72, off + 144));
        let r = Input { inputs: [a, b] };
        assert(Self::decoding(sub).unwrap().inputs =~= r.inputs);
        r
    }

    /// Decodes a pair of notes; fails when `s` does not hold exactly
    /// `Self::SIZE` bytes.
    pub fn from_slice(s: &[u8]) -> (r: Result<Input, Error>)
        ensures
            match Self::decoding(s@) {
                Some(v) => r == Ok::<Input, Error>(v),
                None => r == Err::<Input, Error>(Error::InvalidEncoding),
            },
    {
        if s.len() != Self::SIZE {
            return Err(Error::InvalidEncoding);
        }
        let r = Self::read_at(s, 0);
        assert(s@.subrange(0, 144) == s@);
        Ok(r)
    }
}

impl Output {
    /// Number of bytes in the encoding.
    pub const SIZE: usize = 96;

    /// The canonical encoding: `a`, `b`, `c` in order.
    pub open spec fn encoding(self) -> Seq<u8> {
        self.a@ + self.b@ + self.c@
    }

    /// The record that `s` encodes, if `s` has the right length.
    pub open spec fn decoding(s: Seq<u8>) -> Option<Output> {
        if s.len() == Self::SIZE {
            Some(
                Output {
                    a: hash_from(s.subrange(0, 32)),
                    b: hash_from(s.subrange(32, 64)),
                    c: hash_from(s.subrange(64, 96)),
                },
            )
        } else {
            None
        }
    }

    /// Encodes the record into `Self::SIZE` bytes.
    pub fn to_bytes(&self) -> (r: Vec<u8>)
        ensures
            r@ == self.encoding(),
            r@.len() == Self::SIZE,
    {
        let mut r: Vec<u8> = Vec::new();
        push_hash(&mut r, &self.a);
        push_hash(&mut r, &self.b);
        push_hash(&mut r, &self.c);
        r
    }

    /// Decodes a record; fails when `s` does not hold exactly `Self::SIZE` bytes.
    pub fn from_slice(s: &[u8]) -> (r: Result<Output, Error>)
        ensures
            match Self::decoding(s@) {
                Some(v) => r == Ok::<Output, Error>(v),
                None => r == Err::<Output, Error>(Error::InvalidEncoding),
            },
    {
        if s.len() != Self::SIZE {
            return Err(Error::InvalidEncoding);
        }
        let a = read_hash(s, 0);
        let b = read_hash(s, 32);
        let c = read_hash(s, 64);
        Ok(Output { a, b, c })
    }
}

/// Decoding the encoding of a pair of notes gives the pair back, and the
/// encoding is exactly `Input::SIZE` bytes long.
pub proof fn lemma_input_round_trip(v: Input)
    ensures
        v.encoding().len() == Input::SIZE,
        Input::decoding(v.encoding()) == Some(v),
{
    lemma_unblinded_note_round_trip(v.inputs[0]);
    lemma_unblinded_note_round_trip(v.inputs[1]);
    let s = v.encoding();
    assert(s.subrange(0, 72) =~= v.inputs[0].encoding());
    assert(s.subrange(72, 144) =~= v.inputs[1].encoding());
    assert(Input::decoding(s).unwrap().inputs =~= v.inputs);
}

/// Decoding the encoding of a commitment record gives the record back, and
/// the encoding is exactly `Output::SIZE` bytes long.
pub proof fn lemma_output_round_trip(v: Output)
    ensures
        v.encoding().len() == Output::SIZE,
        Output::decoding(v.encoding()) == Some(v),
{
    let s = v.encoding();
    assert(s.subrange(0, 32) =~= v.a@);
    assert(s.subrange(32, 64) =~= v.b@);
    assert(s.subrange(64, 96) =~= v.c@);
    lemma_hash_from(v.a);
    lemma_hash_from(v.b);
    lemma_hash_from(v.c);
}

/// Why a fusion cannot be carried out. Such a fusion aborts: it produces
/// neither a note nor a commitment.
#[derive(Debug, Clone, Copy, PartialEq, Eq, Structural)]
pub enum FusionAbort {
    /// The two notes are of different assets.
    AssetMismatch,
    /// A note's nonce is all zero bytes.
    EmptyNonce,
    /// Both notes carry the same nonce.
    RepeatedNonce,
    /// The sum of the amounts does not fit in a `u64`.
    AmountOverflow,
}

/// Why fusing `a` and `b` aborts, checked in this order, or `None` when it
/// goes through.
pub open spec fn fusion_abort(a: UnblindedNote, b: UnblindedNote) -> Option<FusionAbort> {
    if a.asset_id@ != b.asset_id@ {
        Some(FusionAbort::AssetMismatch)
    } else if hash_is_empty(a.nonce@) || hash_is_empty(b.nonce@) {
        Some(FusionAbort::EmptyNonce)
    } else if a.nonce@ == b.nonce@ {
        Some(FusionAbort::RepeatedNonce)
    } else if a.amount + b.amount > u64::MAX {
        Some(FusionAbort::AmountOverflow)
    } else {
        None
    }
}

/// The note that fusing `a` and `b` produces.
pub open spec fn fused_note(a: UnblindedNote, b: UnblindedNote) -> BlindedNote {
    BlindedNote {
        asset_id: a.asset_id,
        amount: (a.amount + b.amount) as u64,
        secret: hash_from(
            sha256_of(OUTPUT_SEP@ + sha256_of(a.encoding()) + sha256_of(b.encoding())),
        ),
    }
}

/// The commitment that fusing `a` and `b` produces.
pub open spec fn fused_commitment(a: UnblindedNote, b: UnblindedNote) -> Output {
    Output {
        a: hash_from(sha256_of(a.encoding())),
        b: hash_from(sha256_of(b.encoding())),
        c: hash_from(sha256_of(fused_note(a, b).encoding())),
    }
}

/// Fusion aborts exactly when the notes are of different assets, a nonce is
/// empty, the nonces are equal, or the amounts overflow when added.
pub proof fn lemma_fusion_abort_conditions(a: UnblindedNote, b: UnblindedNote)
    ensures
        fusion_abort(a, b) is Some <==> (a.asset_id != b.asset_id || hash_is_empty(a.nonce@)
            || hash_is_empty(b.nonce@) || a.nonce == b.nonce || a.amount + b.amount
            > u64::MAX),
{
    if a.asset_id@ == b.asset_id@ {
        assert(a.asset_id =~= b.asset_id);
    }
    if a.nonce@ == b.nonce@ {
        assert(a.nonce =~= b.nonce);
    }
}

/// A buffer whose input region encodes two notes of different assets, or
/// with an empty nonce, or with equal nonces, or whose amounts overflow when
/// added, is one on which fusion aborts: `fusion_abort_of` reports a reason
/// and `fusion` does not accept it, so no note and no commitment come out.
pub proof fn lemma_fusion_aborts(memory: Seq<u8>, a: UnblindedNote, b: UnblindedNote)
    requires
        memory.len() == FUSION_TOTAL_SIZE,
        memory.subrange(0, 144) == (Input { inputs: [a, b] }).encoding(),
        a.asset_id != b.asset_id || hash_is_empty(a.nonce@) || hash_is_empty(b.nonce@)
            || a.nonce == b.nonce || a.amount + b.amount > u64::MAX,
    ensures
        stdin_notes(memory) == (a, b),
        fusion_abort(stdin_notes(memory).0, stdin_notes(memory).1) is Some,
{
    lemma_input_round_trip(Input { inputs: [a, b] });
    lemma_fusion_abort_conditions(a, b);
}

/// A fusion of two notes of one asset with distinct non-empty nonces whose
/// amounts sum within a `u64` goes through; the note read back from the
/// output region is of that asset with the summed amount, and the record
/// read back from the commitment region holds the hashes whose bytes are
/// the digests of both inputs and of that note.
pub proof fn lemma_fusion_result(a: UnblindedNote, b: UnblindedNote)
    requires
        a.asset_id == b.asset_id,
        !hash_is_empty(a.nonce@),
        !hash_is_empty(b.nonce@),
        a.nonce != b.nonce,
        a.amount + b.amount <= u64::MAX,
    ensures
        fusion_abort(a, b) is None,
        ({
            let memory = Input { inputs: [a, b] }.encoding() + fused_note(a, b).encoding()
                + fused_commitment(a, b).encoding();
            &&& memory.len() == FUSION_TOTAL_SIZE
            &&& BlindedNote::decoding(memory.subrange(144, 216)) == Some(fused_note(a, b))
            &&& Output::decoding(memory.subrange(216, 312)) == Some(fused_commitment(a, b))
        }),
        fused_note(a, b).asset_id == a.asset_id,
        fused_note(a, b).amount == a.amount + b.amount,
        fused_commitment(a, b).a == hash_from(sha256_of(a.encoding())),
        fused_commitment(a, b).b == hash_from(sha256_of(b.encoding())),
        fused_commitment(a, b).c == hash_from(sha256_of(fused_note(a, b).encoding())),
{
    lemma_fusion_abort_conditions(a, b);
    let input = Input { inputs: [a, b] };
    lemma_input_round_trip(input);
    lemma_blinded_note_round_trip(fused_note(a, b));
    lemma_output_round_trip(fused_commitment(a, b));
    let memory = input.encoding() + fused_note(a, b).encoding() + fused_commitment(a, b).encoding();
    assert(memory.subrange(144, 216) =~= fused_note(a, b).encoding());
    assert(memory.subrange(216, 312) =~= fused_commitment(a, b).encoding());
}

/// Hashes the separator and two digests together.
fn combine3(sep: &crate::types::Hash, a: &crate::types::Hash, b: &crate::types::Hash) -> (r:
    crate::types::Hash)
    ensures
        r@ == sha256_of(sep@ + a@ + b@),
{
    let mut buf: Vec<u8> = Vec::new();
    push_hash(&mut buf, sep);
    push_hash(&mut buf, a);
    push_hash(&mut buf, b);
    sha256(buf.as_slice())
}

/// Copies `data` into `memory` at `off`.
fn write_at(memory: &mut [u8; FUSION_TOTAL_SIZE], off: usize, data: &Vec<u8>)
    requires
        off + data@.len() <= 312,
    ensures
        final(memory)@ == old(memory)@.subrange(0, off as int) + data@ + old(memory)@.subrange(
            off + data@.len(),
            312,
        ),
{
    let mut i: usize = 0;
    while i < data.len()
        invariant
            0 <= i <= data@.len(),
            off + data@.len() <= 312,
            memory@.len() == 312,
            forall|j: int| 0 <= j < off ==> memory@[j] == old(memory)@[j],
            forall|j: int| 0 <= j < i ==> memory@[off + j] == data@[j],
            forall|j: int| off + i <= j < 312 ==> memory@[j] == old(memory)@[j],
        decreases data@.len() - i,
    {
        memory[off + i] = data[i];
        i += 1;
    }
    assert(memory@ =~= old(memory)@.subrange(0, off as int) + data@ + old(memory)@.subrange(
        off + data@.len(),
        312,
    ));
}

/// The two notes encoded at the start of a fusion buffer.
pub open spec fn stdin_notes(memory: Seq<u8>) -> (UnblindedNote, UnblindedNote) {
    let input = Input::decoding(memory.subrange(0, 144)).unwrap();
    (input.inputs[0], input.inputs[1])
}

/// Why fusing the two notes encoded at the start of `memory` would abort,
/// or `None` when `fusion` may run on it.
pub fn fusion_abort_of(memory: &[u8; FUSION_TOTAL_SIZE]) -> (r: Option<FusionAbort>)
    ensures
        r == fusion_abort(stdin_notes(memory@).0, stdin_notes(memory@).1),
{
    let input = Input::read_at(memory.as_slice(), FUSION_STDIN_START);
    let ia = input.inputs[0];
    let ib = input.inputs[1];
    if !hash_eq(&ia.asset_id, &ib.asset_id) {
        Some(FusionAbort::AssetMismatch)
    } else if is_empty_hash(&ia.nonce) || is_empty_hash(&ib.nonce) {
        Some(FusionAbort::EmptyNonce)
    } else if hash_eq(&ia.nonce, &ib.nonce) {
        Some(FusionAbort::RepeatedNonce)
    } else if ia.amount.checked_add(ib.amount).is_none() {
        Some(FusionAbort::AmountOverflow)
    } else {
        None
    }
}

/// Fuses the two notes encoded at the start of `memory`: the produced note
/// is written after them and the commitment after that.
///
/// A fusion that would abort (see `fusion_abort_of`) has no result at all:
/// it is excluded here, and whoever runs it must stop before calling.
pub fn fusion(memory: &mut [u8; FUSION_TOTAL_SIZE])
    requires
        fusion_abort(stdin_notes(old(memory)@).0, stdin_notes(old(memory)@).1) is None,
    ensures
        ({
            let (a, b) = stdin_notes(old(memory)@);
            final(memory)@ == old(memory)@.subrange(0, 144) + fused_note(a, b).encoding()
                + fused_commitment(a, b).encoding()
        }),
{
    let input = Input::read_at(memory.as_slice(), FUSION_STDIN_START);
    let ia = input.inputs[0];
    let ib = input.inputs[1];
    let a = ia.digest();
    let b = ib.digest();
    let total = ia.amount + ib.amount;
    let output = BlindedNote { asset_id: ia.asset_id, amount: total, secret: combine3(&OUTPUT_SEP, &a, &b) };
    let journal = Output { a, b, c: output.digest() };
    proof {
        lemma_hash_from(output.secret);
        lemma_hash_from(a);
        lemma_hash_from(b);
        lemma_hash_from(journal.c);
    }
    assert(output == fused_note(ia, ib));
    assert(journal == fused_commitment(ia, ib));
    let out_bytes = output.to_bytes();
    let journal_bytes = journal.to_bytes();
    write_at(memory, FUSION_STDOUT_START, &out_bytes);
    write_at(memory, FUSION_JOURNAL_START, &journal_bytes);
    assert(memory@ =~= old(memory)@.subrange(0, 144) + fused_note(ia, ib).encoding()
        + fused_commitment(ia, ib).encoding());
}

} // verus!
