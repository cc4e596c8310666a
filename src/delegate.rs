use crate::crypto::{
    base_scaled_of, curve_hash_of, group_order, hash_to_curve, le_value, point_scaled_of,
    random_scalar, schnorr_challenge, schnorr_valid, sign_point, sign_with, verify,
    Keypair, Point, Scalar, Signature,
};
use crate::error::Error;
use crate::transaction::{balanced, side_total, Atom, Transaction};
use vstd::prelude::*;

verus! {

/// A note issued by a delegate: the delegate's public key, an amount of an
/// asset, its nonce, and the delegate's signature over the nonce.
#[derive(Debug, Clone, Copy)]
pub struct Note {
    pub delegate: Point,
    pub asset_id: crate::types::Hash,
    pub amount: u64,
    pub nonce: crate::types::Hash,
    pub signature: Signature,
}

/// The answer to a request of the first protocol version.
#[derive(Debug, Clone)]
pub enum V0Response {
    /// A settled transaction: one signed point per output atom, in atom order.
    Transaction { outputs: Vec<Point> },
    /// A refused request.
    Error { errors: Vec<Error> },
}

/// The encodings of the signatures already spent, in the order they were
/// recorded.
#[derive(Debug, Clone)]
pub struct SpentSet {
    keys: Vec<Vec<u8>>,
}

/// Whether two byte vectors are equal.
fn bytes_eq(a: &Vec<u8>, b: &Vec<u8>) -> (r: bool)
    ensures
        r == (a@ == b@),
{
    if a.len() != b.len() {
        return false;
    }
    let mut i: usize = 0;
    while i < a.len()
        invariant
            0 <= i <= a@.len(),
            a@.len() == b@.len(),
            forall|j: int| 0 <= j < i ==> a@[j] == b@[j],
        decreases a@.len() - i,
    {
        if a[i] != b[i] {
            return false;
        }
        i += 1;
    }
    assert(a@ =~= b@);
    true
}

impl View for SpentSet {
    type V = Seq<Seq<u8>>;

    closed spec fn view(&self) -> Seq<Seq<u8>> {
        self.keys@.map_values(|k: Vec<u8>| k@)
    }
}

impl SpentSet {
    /// An empty record.
    pub fn new() -> (r: SpentSet)
        ensures
            r@ == Seq::<Seq<u8>>::empty(),
    {
        let r = SpentSet { keys: Vec::new() };
        assert(r@ =~= Seq::<Seq<u8>>::empty());
        r
    }

    /// Whether `key` has been recorded.
    pub fn contains(&self, key: &Vec<u8>) -> (r: bool)
        ensures
            r == self@.contains(key@),
    {
        let mut i: usize = 0;
        while i < self.keys.len()
            invariant
                0 <= i <= self.keys@.len(),
                forall|j: int| 0 <= j < i ==> self@[j] != key@,
            decreases self.keys@.len() - i,
        {
            if bytes_eq(&self.keys[i], key) {
                assert(self@[i as int] == key@);
                return true;
            }
            i += 1;
        }
        false
    }

    /// Records every key of `keys`, all together.
    pub fn insert_all(&mut self, keys: Vec<Vec<u8>>)
        ensures
            final(self)@ == old(self)@ + keys@.map_values(|k: Vec<u8>| k@),
    {
        let mut keys = keys;
        let ghost added = keys@.map_values(|k: Vec<u8>| k@);
        self.keys.append(&mut keys);
        assert(self@ =~= old(self)@ + added);
    }
}

/// The reason an atom is refused, given the transaction's signatures, the
/// delegate's public key and the spent record; `None` when it passes.
pub open spec fn atom_error(
    sigs: Seq<Signature>,
    pk: Seq<u8>,
    spent: Seq<Seq<u8>>,
    atom: Atom,
) -> Option<Error> {
    match atom {
        Atom::Input { signature, nonce, .. } => {
            if signature >= sigs.len() {
                Some(Error::InvalidRequest)
            } else {
                let sig = sigs[signature as int];
                if sig.is_zero() || !schnorr_valid(pk, nonce@, sig) {
                    Some(Error::InvalidSignature)
                } else if spent.contains(sig.encoding()) {
                    Some(Error::AlreadySpent)
                } else {
                    None
                }
            }
        },
        Atom::Output { .. } => None,
    }
}

/// The reason the first refused atom of `atoms` is refused, if any.
pub open spec fn first_error(
    atoms: Seq<Atom>,
    sigs: Seq<Signature>,
    pk: Seq<u8>,
    spent: Seq<Seq<u8>>,
) -> Option<Error>
    decreases atoms.len(),
{
    if atoms.len() == 0 {
        None
    } else {
        match first_error(atoms.drop_last(), sigs, pk, spent) {
            Some(e) => Some(e),
            None => atom_error(sigs, pk, spent, atoms.last()),
        }
    }
}

/// Once an atom of a prefix is refused, the whole sequence is refused for
/// the same reason.
proof fn lemma_first_error_extends(
    atoms: Seq<Atom>,
    sigs: Seq<Signature>,
    pk: Seq<u8>,
    spent: Seq<Seq<u8>>,
    k: int,
)
    requires
        0 <= k <= atoms.len(),
        first_error(atoms.subrange(0, k), sigs, pk, spent) is Some,
    ensures
        first_error(atoms, sigs, pk, spent) == first_error(atoms.subrange(0, k), sigs, pk, spent),
    decreases atoms.len() - k,
{
    if k < atoms.len() {
        assert(atoms.subrange(0, k + 1).drop_last() == atoms.subrange(0, k));
        lemma_first_error_extends(atoms, sigs, pk, spent, k + 1);
    } else {
        assert(atoms.subrange(0, k) == atoms);
    }
}

/// The points signed for the output atoms of `atoms`, in order.
pub open spec fn signed_outputs(atoms: Seq<Atom>, sk: Seq<u8>) -> Seq<Seq<u8>>
    decreases atoms.len(),
{
    if atoms.len() == 0 {
        Seq::empty()
    } else {
        let prev = signed_outputs(atoms.drop_last(), sk);
        match atoms.last() {
            Atom::Output { nonce, .. } => prev.push(point_scaled_of(curve_hash_of(nonce@), sk)),
            Atom::Input { .. } => prev,
        }
    }
}

/// The encodings of the signatures that the input atoms of `atoms` spend,
/// in order.
pub open spec fn input_keys(atoms: Seq<Atom>, sigs: Seq<Signature>) -> Seq<Seq<u8>>
    decreases atoms.len(),
{
    if atoms.len() == 0 {
        Seq::empty()
    } else {
        let prev = input_keys(atoms.drop_last(), sigs);
        match atoms.last() {
            Atom::Input { signature, .. } => prev.push(sigs[signature as int].encoding()),
            Atom::Output { .. } => prev,
        }
    }
}

/// The outcome of settling `tx` against a spent record: the unbalanced
/// transaction is refused first, then the first refused atom decides, and
/// otherwise the output points come back.
pub open spec fn settle(tx: Transaction, keypair: Keypair, spent: Seq<Seq<u8>>) -> Result<
    Seq<Seq<u8>>,
    Error,
> {
    if !balanced(tx.atoms@, tx.asset_ids@) {
        Err(Error::InvalidRequest)
    } else {
        match first_error(tx.atoms@, tx.signatures@, keypair.public()@, spent) {
            Some(e) => Err(e),
            None => Ok(signed_outputs(tx.atoms@, keypair.secret()@)),
        }
    }
}

/// When a sequence passes, each of its atoms passes.
proof fn lemma_no_error_each(
    atoms: Seq<Atom>,
    sigs: Seq<Signature>,
    pk: Seq<u8>,
    spent: Seq<Seq<u8>>,
)
    requires
        first_error(atoms, sigs, pk, spent) is None,
    ensures
        forall|j: int| 0 <= j < atoms.len() ==> (#[trigger] atom_error(sigs, pk, spent, atoms[j])) is None,
    decreases atoms.len(),
{
    if atoms.len() > 0 {
        let prefix = atoms.drop_last();
        lemma_no_error_each(prefix, sigs, pk, spent);
        assert forall|j: int| 0 <= j < atoms.len() implies (#[trigger] atom_error(sigs, pk, spent, atoms[j])) is None by {
            if j < atoms.len() - 1 {
                assert(prefix[j] == atoms[j]);
            }
        }
    }
}

/// When a sequence passes against `spent`, against `spent + extra` it either
/// passes or is refused as already spent, and it is refused whenever one of
/// its atoms is.
proof fn lemma_first_error_grow(
    atoms: Seq<Atom>,
    sigs: Seq<Signature>,
    pk: Seq<u8>,
    spent: Seq<Seq<u8>>,
    extra: Seq<Seq<u8>>,
)
    requires
        first_error(atoms, sigs, pk, spent) is None,
    ensures
        first_error(atoms, sigs, pk, spent + extra) is None || first_error(atoms, sigs, pk, spent + extra)
            == Some(Error::AlreadySpent),
        forall|j: int|
            0 <= j < atoms.len() && (#[trigger] atom_error(sigs, pk, spent + extra, atoms[j])) is Some
                ==> first_error(atoms, sigs, pk, spent + extra) is Some,
    decreases atoms.len(),
{
    if atoms.len() > 0 {
        let prefix = atoms.drop_last();
        lemma_first_error_grow(prefix, sigs, pk, spent, extra);
        assert forall|j: int|
            0 <= j < atoms.len() && (#[trigger] atom_error(sigs, pk, spent + extra, atoms[j])) is Some
                implies first_error(atoms, sigs, pk, spent + extra) is Some by {
            if j < atoms.len() - 1 {
                assert(prefix[j] == atoms[j]);
            }
        }
    }
}

/// The key of every input atom is among the input keys.
proof fn lemma_input_keys_contains(atoms: Seq<Atom>, sigs: Seq<Signature>, j: int)
    requires
        0 <= j < atoms.len(),
        atoms[j] is Input,
    ensures
        input_keys(atoms, sigs).contains(sigs[atoms[j]->Input_signature as int].encoding()),
    decreases atoms.len(),
{
    let prefix = atoms.drop_last();
    let key = sigs[atoms[j]->Input_signature as int].encoding();
    if j < atoms.len() - 1 {
        assert(prefix[j] == atoms[j]);
        lemma_input_keys_contains(prefix, sigs, j);
        let keys = input_keys(prefix, sigs);
        let k = choose|k: int| 0 <= k < keys.len() && keys[k] == key;
        match atoms.last() {
            Atom::Input { .. } => {
                assert(input_keys(atoms, sigs)[k] == key);
            },
            Atom::Output { .. } => {},
        }
    } else {
        assert(input_keys(atoms, sigs).last() == key);
    }
}

/// A transaction in which some asset's inputs do not sum to its outputs is
/// refused as an invalid request, whatever has been spent.
pub proof fn lemma_unbalanced_refused(
    tx: Transaction,
    keypair: Keypair,
    spent: Seq<Seq<u8>>,
    id: Seq<u8>,
)
    requires
        side_total(tx.atoms@, tx.asset_ids@, id, true) != side_total(
            tx.atoms@,
            tx.asset_ids@,
            id,
            false,
        ),
    ensures
        settle(tx, keypair, spent) == Err::<Seq<Seq<u8>>, Error>(Error::InvalidRequest),
{
}

/// A transaction that settles against a record is refused as already spent
/// against that record extended by keys that include the signature of one
/// of its inputs.
pub proof fn lemma_spent_input_refused(
    tx: Transaction,
    keypair: Keypair,
    spent: Seq<Seq<u8>>,
    extra: Seq<Seq<u8>>,
    j: int,
)
    requires
        settle(tx, keypair, spent) is Ok,
        0 <= j < tx.atoms@.len(),
        tx.atoms@[j] is Input,
        extra.contains(tx.signatures@[tx.atoms@[j]->Input_signature as int].encoding()),
    ensures
        settle(tx, keypair, spent + extra) == Err::<Seq<Seq<u8>>, Error>(Error::AlreadySpent),
{
    let atoms = tx.atoms@;
    let sigs = tx.signatures@;
    let pk = keypair.public()@;
    lemma_no_error_each(atoms, sigs, pk, spent);
    assert(atom_error(sigs, pk, spent, atoms[j]) is None);
    let key = sigs[atoms[j]->Input_signature as int].encoding();
    let k = choose|k: int| 0 <= k < extra.len() && extra[k] == key;
    assert((spent + extra)[spent.len() + k] == key);
    assert(atom_error(sigs, pk, spent + extra, atoms[j]) is Some);
    lemma_first_error_grow(atoms, sigs, pk, spent, extra);
}

/// Submitting again a transaction that has just settled, with an input,
/// is refused as already spent.
pub proof fn lemma_resubmission_refused(
    tx: Transaction,
    keypair: Keypair,
    spent: Seq<Seq<u8>>,
    j: int,
)
    requires
        settle(tx, keypair, spent) is Ok,
        0 <= j < tx.atoms@.len(),
        tx.atoms@[j] is Input,
    ensures
        settle(tx, keypair, spent + input_keys(tx.atoms@, tx.signatures@)) == Err::<
            Seq<Seq<u8>>,
            Error,
        >(Error::AlreadySpent),
{
    lemma_input_keys_contains(tx.atoms@, tx.signatures@, j);
    lemma_spent_input_refused(tx, keypair, spent, input_keys(tx.atoms@, tx.signatures@), j);
}

/// The party that issues notes and settles transactions, with its record of
/// spent signatures.
#[derive(Debug, Clone)]
pub struct Delegate {
    pub keypair: Keypair,
    pub spent: SpentSet,
}

/// Relies on rand's `random` for `[u8; 32]`: 32 bytes from the thread-local
/// generator, nothing more is known of them.
#[verifier::external_body]
fn random_hash() -> (r: crate::types::Hash) {
    rand::random::<[u8; 32]>()
}

impl Delegate {
    /// A delegate with the given secret key and nothing spent yet.
    pub fn new(secret_key: Scalar) -> (r: Delegate)
        ensures
            r.keypair.secret() == secret_key,
            r.keypair.public()@ == base_scaled_of(secret_key@),
            r.spent@ == Seq::<Seq<u8>>::empty(),
    {
        Delegate { keypair: Keypair::new(secret_key), spent: SpentSet::new() }
    }

    /// A delegate with a fresh random secret key and nothing spent yet.
    pub fn random() -> (r: Delegate)
        ensures
            r.keypair.public()@ == base_scaled_of(r.keypair.secret()@),
            r.spent@ == Seq::<Seq<u8>>::empty(),
    {
        Delegate::new(random_scalar())
    }

    /// The delegate's public key: the generator times its secret key.
    pub fn public_key(&self) -> (r: Point)
        ensures
            r == self.keypair.public(),
            r@ == base_scaled_of(self.keypair.secret()@),
    {
        self.keypair.public_key()
    }

    /// The delegate's secret key.
    pub fn secret_key(&self) -> (r: Scalar)
        ensures
            r == self.keypair.secret(),
    {
        self.keypair.secret_key()
    }

    /// Issues a note with the given nonce, signed with the signing nonce `k`.
    ///
    /// The note carries a Schnorr signature `(R, s)` over its nonce, the form
    /// that settlement checks for input atoms (`verify`). Blind issuance
    /// (`blind`, `sign_blinded`, `unblind_and_verify_signature`) yields a
    /// single unblinded point with no response scalar, which that check
    /// cannot take; the two paths are kept apart on purpose.
    pub fn emit_with(
        &self,
        asset_id: crate::types::Hash,
        amount: u64,
        nonce: crate::types::Hash,
        k: &Scalar,
    ) -> (r: Result<Note, Error>)
        ensures
            r matches Ok(note) && {
                &&& note.delegate == self.keypair.public()
                &&& note.asset_id == asset_id
                &&& note.amount == amount
                &&& note.nonce == nonce
                &&& note.signature.r@ == base_scaled_of(k@)
                &&& note.signature.s.value() == (k.value() + le_value(
                    schnorr_challenge(note.signature.r@, self.keypair.public()@, nonce@),
                ) * self.keypair.secret().value()) % group_order()
            },
    {
        let signature = sign_with(&self.keypair, &nonce, k);
        let delegate = self.keypair.public_key();
        Ok(Note { delegate, asset_id, amount, nonce, signature })
    }

    /// Issues a note of `amount` of `asset_id` with a fresh random nonce and
    /// a fresh random signing nonce.
    pub fn emit(&self, asset_id: crate::types::Hash, amount: u64) -> (r: Result<Note, Error>)
        ensures
            r matches Ok(note) && {
                &&& note.delegate == self.keypair.public()
                &&& note.asset_id == asset_id
                &&& note.amount == amount
                &&& exists|k: Scalar|
                    {
                        &&& note.signature.r@ == base_scaled_of(k@)
                        &&& note.signature.s.value() == (k.value() + le_value(
                            schnorr_challenge(note.signature.r@, self.keypair.public()@, note.nonce@),
                        ) * self.keypair.secret().value()) % group_order()
                    }
            },
    {
        let nonce = random_hash();
        let k = random_scalar();
        self.emit_with(asset_id, amount, nonce, &k)
    }

    /// Settles a transaction: refuses it when unbalanced, then checks every
    /// atom in order (an input must name a non-zero signature that verifies
    /// over its nonce and has not been spent; an output receives the curve
    /// point of its nonce times the secret key). Only when every atom passes
    /// are the input signatures recorded as spent, all together.
    pub fn recv_transaction_v0(&mut self, tx: &Transaction) -> (r: Result<V0Response, Error>)
        ensures
            final(self).keypair == old(self).keypair,
            match settle(*tx, old(self).keypair, old(self).spent@) {
                Ok(outputs) => r matches Ok(V0Response::Transaction { outputs: points })
                    && points@.map_values(|p: Point| p@) == outputs && final(self).spent@ == old(self).spent@ + input_keys(
                    tx.atoms@,
                    tx.signatures@,
                ),
                Err(e) => r == Err::<V0Response, Error>(e) && final(self).spent@ == old(
                    self,
                ).spent@,
            },
    {
        if !tx.is_balanced() {
            return Err(Error::InvalidRequest);
        }
        let mut outputs: Vec<Point> = Vec::new();
        let mut keys: Vec<Vec<u8>> = Vec::new();
        let ghost sigs = tx.signatures@;
        let ghost pk = self.keypair.public()@;
        let ghost sk = self.keypair.secret()@;
        let mut i: usize = 0;
        while i < tx.atoms.len()
            invariant
                0 <= i <= tx.atoms@.len(),
                sigs == tx.signatures@,
                pk == self.keypair.public()@,
                sk == self.keypair.secret()@,
                self == old(self),
                balanced(tx.atoms@, tx.asset_ids@),
                first_error(tx.atoms@.subrange(0, i as int), sigs, pk, self.spent@) is None,
                outputs@.map_values(|p: Point| p@) == signed_outputs(
                    tx.atoms@.subrange(0, i as int),
                    sk,
                ),
                keys@.map_values(|k: Vec<u8>| k@) == input_keys(
                    tx.atoms@.subrange(0, i as int),
                    sigs,
                ),
            decreases tx.atoms@.len() - i,
        {
            let ghost prefix = tx.atoms@.subrange(0, i as int);
            let ghost next = tx.atoms@.subrange(0, i + 1);
            assert(next.drop_last() == prefix);
            let atom = tx.atoms[i];
            match atom {
                Atom::Input { signature, nonce, .. } => {
                    if signature as usize >= tx.signatures.len() {
                        proof {
                            lemma_first_error_extends(tx.atoms@, sigs, pk, self.spent@, i + 1);
                        }
                        return Err(Error::InvalidRequest);
                    }
                    let sig = tx.signatures[signature as usize];
                    if sig.is_zero_signature() {
                        proof {
                            lemma_first_error_extends(tx.atoms@, sigs, pk, self.spent@, i + 1);
                        }
                        return Err(Error::InvalidSignature);
                    }
                    if verify(&self.keypair.public_key(), &nonce, &sig).is_err() {
                        proof {
                            lemma_first_error_extends(tx.atoms@, sigs, pk, self.spent@, i + 1);
                        }
                        return Err(Error::InvalidSignature);
                    }
                    let key = sig.to_bytes();
                    if self.spent.contains(&key) {
                        proof {
                            lemma_first_error_extends(tx.atoms@, sigs, pk, self.spent@, i + 1);
                        }
                        return Err(Error::AlreadySpent);
                    }
                    keys.push(key);
                    assert(keys@.map_values(|k: Vec<u8>| k@) =~= input_keys(next, sigs));
                    assert(outputs@.map_values(|p: Point| p@) =~= signed_outputs(next, sk));
                },
                Atom::Output { nonce, .. } => {
                    let y = hash_to_curve(&nonce);
                    let signed = sign_point(&self.keypair.secret_key(), &y);
                    outputs.push(signed);
                    assert(keys@.map_values(|k: Vec<u8>| k@) =~= input_keys(next, sigs));
                    assert(outputs@.map_values(|p: Point| p@) =~= signed_outputs(next, sk));
                },
            }
            i += 1;
        }
        assert(tx.atoms@.subrange(0, tx.atoms@.len() as int) == tx.atoms@);
        self.spent.insert_all(keys);
        Ok(V0Response::Transaction { outputs })
    }
}

} // verus!
