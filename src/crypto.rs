use crate::error::Error;
use crate::types::{hash_is_empty, is_empty_hash, push_hash, read_hash};
use curve25519_dalek::ristretto::{CompressedRistretto, RistrettoPoint};
use curve25519_dalek::scalar::Scalar as GroupScalar;
use rand::rngs::OsRng;
use sha2::Sha512;
use vstd::arithmetic::power2::pow2;
use vstd::prelude::*;

verus! {

/// Whether 32 bytes are the canonical encoding of a Ristretto group element.
pub uninterp spec fn ristretto_decodes(b: Seq<u8>) -> bool;

/// The encoding of the group element that a message hashes to.
pub uninterp spec fn curve_hash_of(message: Seq<u8>) -> Seq<u8>;

/// The encoding of the sum of two group elements, given by their encodings.
pub uninterp spec fn point_sum_of(a: Seq<u8>, b: Seq<u8>) -> Seq<u8>;

/// The encoding of the difference of two group elements, given by their encodings.
pub uninterp spec fn point_difference_of(a: Seq<u8>, b: Seq<u8>) -> Seq<u8>;

/// The encoding of a group element multiplied by a scalar (little-endian bytes).
pub uninterp spec fn point_scaled_of(p: Seq<u8>, k: Seq<u8>) -> Seq<u8>;

/// The encoding of the generator multiplied by a scalar (little-endian bytes).
pub uninterp spec fn base_scaled_of(k: Seq<u8>) -> Seq<u8>;

/// The bytes of the scalar that a byte string hashes to.
pub uninterp spec fn scalar_hash_of(data: Seq<u8>) -> Seq<u8>;

/// The order of the prime-order group.
pub open spec fn group_order() -> nat {
    pow2(252) + 27742317777372353535851937790883648493
}

/// The group order is positive.
pub proof fn lemma_group_order_positive()
    ensures
        group_order() > 0,
{
    vstd::arithmetic::power2::lemma_pow2_pos(252);
}

/// The integer that little-endian bytes stand for.
pub open spec fn le_value(s: Seq<u8>) -> nat
    decreases s.len(),
{
    if s.len() == 0 {
        0
    } else {
        s[0] as nat + 256 * le_value(s.drop_first())
    }
}

/// Domain separator of the discrete-log-equality challenge ("mugraph:dleq:challenge").
pub const DLEQ_DOMAIN: crate::types::Hash = [
    109, 117, 103, 114, 97, 112, 104, 58, 100, 108, 101, 113, 58, 99, 104, 97, 108, 108, 101, 110,
    103, 101, 0, 0, 0, 0, 0, 0, 0, 0, 0, 0,
];

/// Domain separator of the Schnorr signature challenge ("mugraph:schnorr:challenge").
pub const SCHNORR_DOMAIN: crate::types::Hash = [
    109, 117, 103, 114, 97, 112, 104, 58, 115, 99, 104, 110, 111, 114, 114, 58, 99, 104, 97, 108,
    108, 101, 110, 103, 101, 0, 0, 0, 0, 0, 0, 0,
];

/// The Fiat-Shamir challenge of a discrete-log-equality proof: the domain
/// separator and four point encodings hashed to a scalar.
pub open spec fn dleq_challenge(r1: Seq<u8>, r2: Seq<u8>, pk: Seq<u8>, c: Seq<u8>) -> Seq<u8> {
    scalar_hash_of(DLEQ_DOMAIN@ + r1 + r2 + pk + c)
}

/// The challenge of a Schnorr signature with commitment `r` over `message`.
pub open spec fn schnorr_challenge(r: Seq<u8>, pk: Seq<u8>, message: Seq<u8>) -> Seq<u8> {
    scalar_hash_of(SCHNORR_DOMAIN@ + r + pk + message)
}

/// An element of the prime-order group, held as its canonical 32-byte encoding.
#[derive(Debug, Clone, Copy)]
pub struct Point {
    bytes: [u8; 32],
}

impl Point {
    /// A point always holds a valid encoding.
    #[verifier::type_invariant]
    spec fn decodes(self) -> bool {
        ristretto_decodes(self.bytes@)
    }
}

impl View for Point {
    type V = Seq<u8>;

    closed spec fn view(&self) -> Seq<u8> {
        self.bytes@
    }
}

/// An element of the scalar field, held as its canonical 32 little-endian
/// bytes.
#[derive(Debug, Clone, Copy)]
pub struct Scalar {
    bytes: [u8; 32],
}

impl View for Scalar {
    type V = Seq<u8>;

    closed spec fn view(&self) -> Seq<u8> {
        self.bytes@
    }
}

impl Scalar {
    /// A scalar is always reduced modulo the group order.
    #[verifier::type_invariant]
    spec fn reduced(self) -> bool {
        le_value(self.bytes@) < group_order()
    }

    /// The integer this scalar stands for.
    pub open spec fn value(self) -> nat {
        le_value(self@)
    }

    /// Relies on curve25519_dalek's `Scalar::from_bytes_mod_order`: the
    /// little-endian integer of `bytes` reduced modulo the group order.
    #[verifier::external_body]
    pub fn from_bytes_mod_order(bytes: [u8; 32]) -> (r: Scalar)
        ensures
            r.value() == le_value(bytes@) % group_order(),
    {
        Scalar { bytes: GroupScalar::from_bytes_mod_order(bytes).to_bytes() }
    }

    /// Relies on curve25519_dalek's `Scalar::from_canonical_bytes`: it
    /// succeeds exactly on the encodings of integers below the group order.
    #[verifier::external_body]
    pub(crate) fn from_canonical_bytes(bytes: [u8; 32]) -> (r: Option<Scalar>)
        ensures
            r is Some <==> le_value(bytes@) < group_order(),
            r matches Some(s) ==> s@ == bytes@,
    {
        match Option::<GroupScalar>::from(GroupScalar::from_canonical_bytes(bytes)) {
            Some(_) => Some(Scalar { bytes }),
            None => None,
        }
    }

    /// The canonical encoding of the scalar.
    pub fn to_bytes(&self) -> (r: [u8; 32])
        ensures
            r@ == self@,
            le_value(r@) < group_order(),
    {
        proof {
            use_type_invariant(self);
        }
        self.bytes
    }
}

/// A Schnorr-style signature: a commitment point and a response scalar.
#[derive(Debug, Clone, Copy)]
pub struct Signature {
    pub r: Point,
    pub s: Scalar,
}

/// A Fiat-Shamir proof that a point was multiplied by the secret key behind
/// a public key.
#[derive(Debug, Clone, Copy)]
pub struct DLEQProof {
    pub e: Scalar,
    pub s: Scalar,
}

/// A secret key with the public key that belongs to it.
#[derive(Debug, Clone, Copy)]
pub struct Keypair {
    secret_key: Scalar,
    public_key: Point,
}

impl Keypair {
    /// The public key is always the generator multiplied by the secret key.
    #[verifier::type_invariant]
    spec fn consistent(self) -> bool {
        self.public_key@ == base_scaled_of(self.secret_key@)
    }

    /// The secret key.
    pub closed spec fn secret(self) -> Scalar {
        self.secret_key
    }

    /// The public key.
    pub closed spec fn public(self) -> Point {
        self.public_key
    }

    /// The key pair of a secret key.
    pub fn new(secret_key: Scalar) -> (r: Keypair)
        ensures
            r.secret() == secret_key,
            r.public()@ == base_scaled_of(secret_key@),
    {
        let public_key = base_mul(&secret_key);
        Keypair { secret_key, public_key }
    }

    /// The secret key.
    pub fn secret_key(&self) -> (r: Scalar)
        ensures
            r == self.secret(),
    {
        self.secret_key
    }

    /// The public key, the generator multiplied by the secret key.
    pub fn public_key(&self) -> (r: Point)
        ensures
            r == self.public(),
            r@ == base_scaled_of(self.secret()@),
    {
        proof {
            use_type_invariant(self);
        }
        self.public_key
    }
}

impl Point {
    /// Relies on curve25519_dalek's `CompressedRistretto::decompress`: it
    /// succeeds exactly on canonical encodings.
    #[verifier::external_body]
    pub(crate) fn from_bytes(bytes: [u8; 32]) -> (r: Option<Point>)
        ensures
            r is Some <==> ristretto_decodes(bytes@),
            r matches Some(p) ==> p@ == bytes@,
    {
        match CompressedRistretto(bytes).decompress() {
            Some(_) => Some(Point { bytes }),
            None => None,
        }
    }

    /// The canonical encoding of the point.
    pub fn to_bytes(&self) -> (r: [u8; 32])
        ensures
            r@ == self@,
    {
        self.bytes
    }

    /// Whether two points are the same group element.
    pub fn equals(&self, other: &Point) -> (r: bool)
        ensures
            r == (self@ == other@),
    {
        let mut i: usize = 0;
        while i < 32
            invariant
                0 <= i <= 32,
                forall|j: int| 0 <= j < i ==> self.bytes@[j] == other.bytes@[j],
            decreases 32 - i,
        {
            if self.bytes[i] != other.bytes[i] {
                return false;
            }
            i += 1;
        }
        assert(self.bytes@ =~= other.bytes@);
        true
    }
}

/// Relies on curve25519_dalek's `RistrettoPoint::hash_from_bytes` with
/// SHA-512 and `compress`: a deterministic map from bytes to the group.
#[verifier::external_body]
pub(crate) fn hash_to_curve(message: &[u8]) -> (r: Point)
    ensures
        r@ == curve_hash_of(message@),
{
    Point { bytes: RistrettoPoint::hash_from_bytes::<Sha512>(message).compress().to_bytes() }
}

/// Relies on curve25519_dalek's `RistrettoPoint` addition. Points always
/// decompress, by their invariant.
#[verifier::external_body]
fn point_add(a: &Point, b: &Point) -> (r: Point)
    ensures
        r@ == point_sum_of(a@, b@),
{
    let x = CompressedRistretto(a.bytes).decompress().unwrap();
    let y = CompressedRistretto(b.bytes).decompress().unwrap();
    Point { bytes: (x + y).compress().to_bytes() }
}

/// Relies on curve25519_dalek's `RistrettoPoint` subtraction. Points always
/// decompress, by their invariant.
#[verifier::external_body]
fn point_sub(a: &Point, b: &Point) -> (r: Point)
    ensures
        r@ == point_difference_of(a@, b@),
{
    let x = CompressedRistretto(a.bytes).decompress().unwrap();
    let y = CompressedRistretto(b.bytes).decompress().unwrap();
    Point { bytes: (x - y).compress().to_bytes() }
}

/// Relies on curve25519_dalek's `RistrettoPoint * Scalar`, the scalar read
/// by `Scalar::from_bytes_mod_order`. Points always decompress, by their
/// invariant.
#[verifier::external_body]
fn point_mul(p: &Point, k: &Scalar) -> (r: Point)
    ensures
        r@ == point_scaled_of(p@, k@),
{
    let x = CompressedRistretto(p.bytes).decompress().unwrap();
    Point { bytes: (x * GroupScalar::from_bytes_mod_order(k.bytes)).compress().to_bytes() }
}

/// Relies on curve25519_dalek's `RistrettoPoint::mul_base`, the scalar read
/// by `Scalar::from_bytes_mod_order`.
#[verifier::external_body]
fn base_mul(k: &Scalar) -> (r: Point)
    ensures
        r@ == base_scaled_of(k@),
{
    let x = RistrettoPoint::mul_base(&GroupScalar::from_bytes_mod_order(k.bytes));
    Point { bytes: x.compress().to_bytes() }
}

/// Relies on curve25519_dalek's `Scalar` addition after
/// `Scalar::from_bytes_mod_order`: the sum modulo the group order.
#[verifier::external_body]
fn scalar_add(a: &Scalar, b: &Scalar) -> (r: Scalar)
    ensures
        r.value() == (a.value() + b.value()) % group_order(),
{
    let x = GroupScalar::from_bytes_mod_order(a.bytes) + GroupScalar::from_bytes_mod_order(b.bytes);
    Scalar { bytes: x.to_bytes() }
}

/// Relies on curve25519_dalek's `Scalar` multiplication after
/// `Scalar::from_bytes_mod_order`: the product modulo the group order.
#[verifier::external_body]
fn scalar_mul(a: &Scalar, b: &Scalar) -> (r: Scalar)
    ensures
        r.value() == (a.value() * b.value()) % group_order(),
{
    let x = GroupScalar::from_bytes_mod_order(a.bytes) * GroupScalar::from_bytes_mod_order(b.bytes);
    Scalar { bytes: x.to_bytes() }
}

/// Relies on curve25519_dalek's `Scalar::hash_from_bytes` with SHA-512.
#[verifier::external_body]
fn hash_to_scalar(data: &[u8]) -> (r: Scalar)
    ensures
        r@ == scalar_hash_of(data@),
{
    Scalar { bytes: GroupScalar::hash_from_bytes::<Sha512>(data).to_bytes() }
}

/// Relies on curve25519_dalek's `Scalar::random` over the operating
/// system's generator: a reduced scalar, nothing more is known of it.
#[verifier::external_body]
pub(crate) fn random_scalar() -> (r: Scalar)
    ensures
        r.value() < group_order(),
{
    Scalar { bytes: GroupScalar::random(&mut OsRng).to_bytes() }
}

/// The public key of a secret key.
pub fn public_key_of(secret_key: &Scalar) -> (r: Point)
    ensures
        r@ == base_scaled_of(secret_key@),
{
    base_mul(secret_key)
}

/// Multiplies a point by a secret key: `sign_blinded` without the proof.
pub fn sign_point(private_key: &Scalar, point: &Point) -> (r: Point)
    ensures
        r@ == point_scaled_of(point@, private_key@),
{
    point_mul(point, private_key)
}

/// The discrete-log-equality challenge over four points.
fn challenge(r1: &Point, r2: &Point, pk: &Point, c: &Point) -> (e: Scalar)
    ensures
        e@ == dleq_challenge(r1@, r2@, pk@, c@),
{
    let mut buf: Vec<u8> = Vec::new();
    push_hash(&mut buf, &DLEQ_DOMAIN);
    push_hash(&mut buf, &r1.to_bytes());
    push_hash(&mut buf, &r2.to_bytes());
    push_hash(&mut buf, &pk.to_bytes());
    push_hash(&mut buf, &c.to_bytes());
    assert(buf@ == DLEQ_DOMAIN@ + r1@ + r2@ + pk@ + c@);
    hash_to_scalar(buf.as_slice())
}

/// Blinds a message with a given blinding factor `r`: returns the point the
/// message hashes to, `r`, and the blinded point `y + G·r`.
pub fn blind_with(secret_message: &[u8], r: &Scalar) -> (res: (Point, Scalar, Point))
    ensures
        res.0@ == curve_hash_of(secret_message@),
        res.1 == *r,
        res.2@ == point_sum_of(res.0@, base_scaled_of(r@)),
{
    let y = hash_to_curve(secret_message);
    let g_r = base_mul(r);
    let b_prime = point_add(&y, &g_r);
    (y, *r, b_prime)
}

/// Blinds a message with a fresh random blinding factor.
pub fn blind(secret_message: &[u8]) -> (res: (Point, Scalar, Point))
    ensures
        res.0@ == curve_hash_of(secret_message@),
        res.1.value() < group_order(),
        res.2@ == point_sum_of(res.0@, base_scaled_of(res.1@)),
{
    let r = random_scalar();
    blind_with(secret_message, &r)
}

/// Signs a blinded point with a given proof nonce `k`: returns
/// `c' = b'·sk` and the discrete-log-equality proof `(e, s)` with
/// `e = H(G·k, b'·k, G·sk, c')` and `s = k + e·sk`.
pub fn sign_blinded_with(private_key: &Scalar, blinded_point: &Point, k: &Scalar) -> (res: (
    Point,
    DLEQProof,
))
    ensures
        res.0@ == point_scaled_of(blinded_point@, private_key@),
        res.1.e@ == dleq_challenge(
            base_scaled_of(k@),
            point_scaled_of(blinded_point@, k@),
            base_scaled_of(private_key@),
            res.0@,
        ),
        res.1.s.value() == (k.value() + res.1.e.value() * private_key.value()) % group_order(),
{
    let signed_point = point_mul(blinded_point, private_key);
    let public_key = base_mul(private_key);
    let r1 = base_mul(k);
    let r2 = point_mul(blinded_point, k);
    let e = challenge(&r1, &r2, &public_key, &signed_point);
    let e_sk = scalar_mul(&e, private_key);
    let s = scalar_add(k, &e_sk);
    proof {
        lemma_group_order_positive();
        vstd::arithmetic::div_mod::lemma_add_mod_noop_right(
            k.value() as int,
            (e.value() * private_key.value()) as int,
            group_order() as int,
        );
    }
    (signed_point, DLEQProof { e, s })
}

/// Signs a blinded point with a fresh random proof nonce.
pub fn sign_blinded(private_key: &Scalar, blinded_point: &Point) -> (res: (Point, DLEQProof))
    ensures
        res.0@ == point_scaled_of(blinded_point@, private_key@),
        exists|k: Scalar|
            {
                &&& res.1.e@ == dleq_challenge(
                    base_scaled_of(k@),
                    point_scaled_of(blinded_point@, k@),
                    base_scaled_of(private_key@),
                    res.0@,
                )
                &&& res.1.s.value() == (k.value() + res.1.e.value() * private_key.value())
                    % group_order()
            },
{
    let k = random_scalar();
    sign_blinded_with(private_key, blinded_point, &k)
}

/// The challenge that a verifier recomputes from a proof.
pub open spec fn dleq_recomputed(pk: Seq<u8>, b: Seq<u8>, c: Seq<u8>, proof: DLEQProof) -> Seq<u8> {
    dleq_challenge(
        point_difference_of(base_scaled_of(proof.s@), point_scaled_of(pk, proof.e@)),
        point_difference_of(point_scaled_of(b, proof.s@), point_scaled_of(c, proof.e@)),
        pk,
        c,
    )
}

/// Checks a discrete-log-equality proof: recomputes `R1 = G·s − pk·e`,
/// `R2 = b'·s − c'·e` and accepts when `H(R1, R2, pk, c')` equals `e`.
pub fn verify_dleq_proof(
    public_key: &Point,
    blinded_point: &Point,
    signed_point: &Point,
    proof: &DLEQProof,
) -> (r: Result<(), Error>)
    ensures
        r is Ok <==> dleq_recomputed(public_key@, blinded_point@, signed_point@, *proof)
            == proof.e@,
        r is Err ==> r == Err::<(), Error>(Error::InvalidDLEQProof),
{
    let g_s = base_mul(&proof.s);
    let pk_e = point_mul(public_key, &proof.e);
    let r1 = point_sub(&g_s, &pk_e);
    let b_s = point_mul(blinded_point, &proof.s);
    let c_e = point_mul(signed_point, &proof.e);
    let r2 = point_sub(&b_s, &c_e);
    let e = challenge(&r1, &r2, public_key, signed_point);
    if crate::types::hash_eq(&e.bytes, &proof.e.bytes) {
        Ok(())
    } else {
        Err(Error::InvalidDLEQProof)
    }
}

/// Verifies the proof, then removes the blinding: `C = c' − pk·r`.
pub fn unblind_and_verify_signature(
    signed_point: &Point,
    blinding_factor: &Scalar,
    public_key: &Point,
    proof: &DLEQProof,
    blinded_point: &Point,
) -> (r: Result<Point, Error>)
    ensures
        r is Ok <==> dleq_recomputed(public_key@, blinded_point@, signed_point@, *proof)
            == proof.e@,
        r matches Ok(p) ==> p@ == point_difference_of(
            signed_point@,
            point_scaled_of(public_key@, blinding_factor@),
        ),
        r is Err ==> r == Err::<Point, Error>(Error::InvalidDLEQProof),
{
    verify_dleq_proof(public_key, blinded_point, signed_point, proof)?;
    let pk_r = point_mul(public_key, blinding_factor);
    Ok(point_sub(signed_point, &pk_r))
}

/// Checks that an unblinded point is the message's curve point times the
/// private key.
pub fn verify_unblinded_point(private_key: &Scalar, message: &[u8], unblinded_point: &Point) -> (r:
    Result<(), Error>)
    ensures
        r is Ok <==> point_scaled_of(curve_hash_of(message@), private_key@) == unblinded_point@,
        r is Err ==> r == Err::<(), Error>(Error::InvalidUnblindedPoint),
{
    let y = hash_to_curve(message);
    let expected = point_mul(&y, private_key);
    if expected.equals(unblinded_point) {
        Ok(())
    } else {
        Err(Error::InvalidUnblindedPoint)
    }
}

/// Whether a signature verifies over a message under a public key:
/// `G·s == R + pk·H(R, pk, message)`.
pub open spec fn schnorr_valid(pk: Seq<u8>, message: Seq<u8>, sig: Signature) -> bool {
    base_scaled_of(sig.s@) == point_sum_of(
        sig.r@,
        point_scaled_of(pk, schnorr_challenge(sig.r@, pk, message)),
    )
}

/// The challenge of a Schnorr signature.
fn schnorr_challenge_of(r: &Point, pk: &Point, message: &[u8]) -> (e: Scalar)
    ensures
        e@ == schnorr_challenge(r@, pk@, message@),
{
    let mut buf: Vec<u8> = Vec::new();
    push_hash(&mut buf, &SCHNORR_DOMAIN);
    push_hash(&mut buf, &r.to_bytes());
    push_hash(&mut buf, &pk.to_bytes());
    crate::types::push_bytes(&mut buf, message);
    hash_to_scalar(buf.as_slice())
}

/// Signs a message with a given nonce `k`: `R = G·k`,
/// `s = k + H(R, pk, message)·sk`.
pub fn sign_with(keypair: &Keypair, message: &[u8], k: &Scalar) -> (sig: Signature)
    ensures
        sig.r@ == base_scaled_of(k@),
        sig.s.value() == (k.value() + le_value(schnorr_challenge(sig.r@, keypair.public()@, message@))
            * keypair.secret().value()) % group_order(),
{
    let r = base_mul(k);
    let public_key = keypair.public_key();
    let e = schnorr_challenge_of(&r, &public_key, message);
    let e_sk = scalar_mul(&e, &keypair.secret_key());
    let s = scalar_add(k, &e_sk);
    proof {
        lemma_group_order_positive();
        vstd::arithmetic::div_mod::lemma_add_mod_noop_right(
            k.value() as int,
            (e.value() * keypair.secret().value()) as int,
            group_order() as int,
        );
    }
    Signature { r, s }
}

/// Verifies a Schnorr signature over a message under a public key.
pub fn verify(public_key: &Point, message: &[u8], signature: &Signature) -> (r: Result<(), Error>)
    ensures
        r is Ok <==> schnorr_valid(public_key@, message@, *signature),
        r is Err ==> r == Err::<(), Error>(Error::InvalidSignature),
{
    let e = schnorr_challenge_of(&signature.r, public_key, message);
    let g_s = base_mul(&signature.s);
    let pk_e = point_mul(public_key, &e);
    let rhs = point_add(&signature.r, &pk_e);
    if g_s.equals(&rhs) {
        Ok(())
    } else {
        Err(Error::InvalidSignature)
    }
}

impl Signature {
    /// Number of bytes in the encoding.
    pub const SIZE: usize = 64;

    /// The canonical encoding: the commitment point, then the response scalar.
    pub open spec fn encoding(self) -> Seq<u8> {
        self.r@ + self.s@
    }

    /// The all-zero signature, which never authenticates anything.
    pub open spec fn is_zero(self) -> bool {
        hash_is_empty(self.r@) && hash_is_empty(self.s@)
    }

    /// Whether this is the all-zero signature.
    pub fn is_zero_signature(&self) -> (r: bool)
        ensures
            r == self.is_zero(),
    {
        is_empty_hash(&self.r.to_bytes()) && is_empty_hash(&self.s.to_bytes())
    }

    /// Encodes the signature into `Self::SIZE` bytes, whose first half is a
    /// valid point encoding.
    pub fn to_bytes(&self) -> (r: Vec<u8>)
        ensures
            r@ == self.encoding(),
            r@.len() == Self::SIZE,
            ristretto_decodes(r@.subrange(0, 32)),
            le_value(r@.subrange(32, 64)) < group_order(),
    {
        proof {
            use_type_invariant(&self.r);
        }
        let mut r: Vec<u8> = Vec::new();
        push_hash(&mut r, &self.r.to_bytes());
        push_hash(&mut r, &self.s.to_bytes());
        assert(r@.subrange(0, 32) == self.r.bytes@);
        assert(r@.subrange(32, 64) == self.s@);
        r
    }

    /// Decodes a signature; fails when `s` does not hold `Self::SIZE` bytes,
    /// its first half is not a valid point, or its second half is not a
    /// reduced scalar.
    pub fn from_slice(s: &[u8]) -> (r: Result<Signature, Error>)
        ensures
            r is Ok <==> s@.len() == Self::SIZE && ristretto_decodes(s@.subrange(0, 32)) && le_value(
                s@.subrange(32, 64),
            ) < group_order(),
            r matches Ok(sig) ==> sig.encoding() == s@,
            r is Err ==> r == Err::<Signature, Error>(Error::InvalidEncoding),
    {
        if s.len() != Self::SIZE {
            return Err(Error::InvalidEncoding);
        }
        let rb = read_hash(s, 0);
        let sb = read_hash(s, 32);
        match (Point::from_bytes(rb), Scalar::from_canonical_bytes(sb)) {
            (Some(p), Some(k)) => {
                let sig = Signature { r: p, s: k };
                assert(sig.encoding() =~= s@);
                Ok(sig)
            },
            _ => Err(Error::InvalidEncoding),
        }
    }
}

/// A signature is determined by its encoding, which is `Signature::SIZE`
/// bytes long; `Signature::from_slice` therefore gives back the signature
/// whose encoding it reads.
pub proof fn lemma_signature_round_trip(sig: Signature, other: Signature)
    requires
        other.encoding() == sig.encoding(),
    ensures
        sig.encoding().len() == Signature::SIZE,
        other == sig,
{
    assert(other.encoding().subrange(0, 32) == other.r.bytes@);
    assert(sig.encoding().subrange(0, 32) == sig.r.bytes@);
    assert(other.encoding().subrange(32, 64) == other.s.bytes@);
    assert(sig.encoding().subrange(32, 64) == sig.s.bytes@);
    assert(other.r.bytes =~= sig.r.bytes);
    assert(other.s.bytes =~= sig.s.bytes);
}

} // verus!
