use crate::crypto::Signature;
use vstd::prelude::*;

verus! {

/// One line of a transaction: a note spent, or a note requested.
#[derive(Debug, Clone, Copy)]
pub enum Atom {
    /// Spends the note authenticated by `signatures[signature]`.
    Input { signature: u32, asset_id: u32, amount: u64, nonce: crate::types::Hash },
    /// Requests a fresh signature over the curve point of `nonce`.
    Output { asset_id: u32, amount: u64, nonce: crate::types::Hash },
}

impl Atom {
    /// The index of the atom's asset in the transaction's asset list.
    pub open spec fn asset_index(self) -> u32 {
        match self {
            Atom::Input { asset_id, .. } => asset_id,
            Atom::Output { asset_id, .. } => asset_id,
        }
    }

    /// The amount the atom carries.
    pub open spec fn spec_amount(self) -> u64 {
        match self {
            Atom::Input { amount, .. } => amount,
            Atom::Output { amount, .. } => amount,
        }
    }

    /// The atom's nonce.
    pub open spec fn spec_nonce(self) -> crate::types::Hash {
        match self {
            Atom::Input { nonce, .. } => nonce,
            Atom::Output { nonce, .. } => nonce,
        }
    }

    /// Whether the atom spends a note.
    pub fn is_input(&self) -> (r: bool)
        ensures
            r == (*self is Input),
    {
        match self {
            Atom::Input { .. } => true,
            Atom::Output { .. } => false,
        }
    }

    /// Whether the atom requests a note.
    pub fn is_output(&self) -> (r: bool)
        ensures
            r == (*self is Output),
    {
        !self.is_input()
    }

    /// The index of the atom's asset in the transaction's asset list.
    pub fn asset_id(&self) -> (r: u32)
        ensures
            r == self.asset_index(),
    {
        match self {
            Atom::Input { asset_id, .. } => *asset_id,
            Atom::Output { asset_id, .. } => *asset_id,
        }
    }

    /// The amount the atom carries.
    pub fn amount(&self) -> (r: u64)
        ensures
            r == self.spec_amount(),
    {
        match self {
            Atom::Input { amount, .. } => *amount,
            Atom::Output { amount, .. } => *amount,
        }
    }
}

/// A set of atoms that moves value between notes, with the asset ids and
/// input signatures the atoms point to.
#[derive(Debug, Clone)]
pub struct Transaction {
    pub atoms: Vec<Atom>,
    pub asset_ids: Vec<crate::types::Hash>,
    pub signatures: Vec<Signature>,
}

/// The summed amount of the input atoms (or of the output atoms) of `atoms`
/// whose asset is `id`.
pub open spec fn side_total(
    atoms: Seq<Atom>,
    ids: Seq<crate::types::Hash>,
    id: Seq<u8>,
    inputs: bool,
) -> int
    decreases atoms.len(),
{
    if atoms.len() == 0 {
        0
    } else {
        let last = atoms.last();
        side_total(atoms.drop_last(), ids, id, inputs) + if (last is Input) == inputs
            && ids[last.asset_index() as int]@ == id {
            last.spec_amount() as int
        } else {
            0
        }
    }
}

/// Every atom names an asset of the list.
pub open spec fn asset_indices_valid(atoms: Seq<Atom>, ids: Seq<crate::types::Hash>) -> bool {
    forall|i: int| 0 <= i < atoms.len() ==> (#[trigger] atoms[i]).asset_index() < ids.len()
}

/// Every atom names an asset of the list, and for every asset id the inputs
/// sum to the outputs.
pub open spec fn balanced(atoms: Seq<Atom>, ids: Seq<crate::types::Hash>) -> bool {
    &&& asset_indices_valid(atoms, ids)
    &&& forall|id: Seq<u8>| #[trigger]
        side_total(atoms, ids, id, true) == side_total(atoms, ids, id, false)
}

/// An asset that no atom names has nothing on either side.
proof fn lemma_total_unreferenced(
    atoms: Seq<Atom>,
    ids: Seq<crate::types::Hash>,
    id: Seq<u8>,
    inputs: bool,
)
    requires
        asset_indices_valid(atoms, ids),
        forall|k: int| 0 <= k < atoms.len() ==> ids[(#[trigger] atoms[k]).asset_index() as int]@ != id,
    ensures
        side_total(atoms, ids, id, inputs) == 0,
    decreases atoms.len(),
{
    if atoms.len() > 0 {
        let prefix = atoms.drop_last();
        assert forall|k: int| 0 <= k < prefix.len() implies ids[(#[trigger] prefix[k]).asset_index() as int]@ != id by {
            assert(prefix[k] == atoms[k]);
        }
        assert(asset_indices_valid(prefix, ids)) by {
            assert forall|k: int| 0 <= k < prefix.len() implies (#[trigger] prefix[k]).asset_index() < ids.len() by {
                assert(prefix[k] == atoms[k]);
            }
        }
        lemma_total_unreferenced(prefix, ids, id, inputs);
        assert(atoms[atoms.len() - 1] == atoms.last());
    }
}

impl Transaction {
    /// Whether every atom names an asset of the list.
    pub fn asset_indices_in_range(&self) -> (r: bool)
        ensures
            r == asset_indices_valid(self.atoms@, self.asset_ids@),
    {
        let mut i: usize = 0;
        while i < self.atoms.len()
            invariant
                0 <= i <= self.atoms@.len(),
                forall|k: int| 0 <= k < i ==> (#[trigger] self.atoms@[k]).asset_index() < self.asset_ids@.len(),
            decreases self.atoms@.len() - i,
        {
            if self.atoms[i].asset_id() as usize >= self.asset_ids.len() {
                return false;
            }
            i += 1;
        }
        true
    }

    /// The summed amount of the inputs (or outputs) of asset `id`.
    fn total_for(&self, id: &crate::types::Hash, inputs: bool) -> (t: u128)
        requires
            asset_indices_valid(self.atoms@, self.asset_ids@),
        ensures
            t == side_total(self.atoms@, self.asset_ids@, id@, inputs),
    {
        let mut t: u128 = 0;
        let mut j: usize = 0;
        while j < self.atoms.len()
            invariant
                0 <= j <= self.atoms@.len(),
                asset_indices_valid(self.atoms@, self.asset_ids@),
                t == side_total(self.atoms@.subrange(0, j as int), self.asset_ids@, id@, inputs),
                t <= j * 0xffff_ffff_ffff_ffffu128,
            decreases self.atoms@.len() - j,
        {
            let atom = self.atoms[j];
            let index = atom.asset_id() as usize;
            assert(self.atoms@[j as int].asset_index() < self.asset_ids@.len());
            if atom.is_input() == inputs && crate::types::hash_eq(&self.asset_ids[index], id) {
                t = t + atom.amount() as u128;
            }
            j += 1;
            assert(self.atoms@.subrange(0, j as int).drop_last() == self.atoms@.subrange(
                0,
                j - 1,
            ));
        }
        assert(self.atoms@.subrange(0, self.atoms@.len() as int) == self.atoms@);
        t
    }

    /// Whether every atom names an asset of the list and, for every asset id,
    /// the inputs sum to the outputs.
    pub fn is_balanced(&self) -> (r: bool)
        ensures
            r == balanced(self.atoms@, self.asset_ids@),
    {
        if !self.asset_indices_in_range() {
            return false;
        }
        let mut i: usize = 0;
        while i < self.atoms.len()
            invariant
                0 <= i <= self.atoms@.len(),
                asset_indices_valid(self.atoms@, self.asset_ids@),
                forall|k: int|
                    0 <= k < i ==> {
                        let id = self.asset_ids@[(#[trigger] self.atoms@[k]).asset_index() as int]@;
                        side_total(self.atoms@, self.asset_ids@, id, true) == side_total(
                            self.atoms@,
                            self.asset_ids@,
                            id,
                            false,
                        )
                    },
            decreases self.atoms@.len() - i,
        {
            assert(self.atoms@[i as int].asset_index() < self.asset_ids@.len());
            let id = self.asset_ids[self.atoms[i].asset_id() as usize];
            let ins = self.total_for(&id, true);
            let outs = self.total_for(&id, false);
            if ins != outs {
                return false;
            }
            i += 1;
        }
        assert forall|id: Seq<u8>|
            #[trigger] side_total(self.atoms@, self.asset_ids@, id, true) == side_total(
                self.atoms@,
                self.asset_ids@,
                id,
                false,
            ) by {
            if exists|k: int|
                0 <= k < self.atoms@.len() && self.asset_ids@[(#[trigger] self.atoms@[k]).asset_index() as int]@
                    == id {
                let k = choose|k: int|
                    0 <= k < self.atoms@.len() && self.asset_ids@[(#[trigger] self.atoms@[k]).asset_index() as int]@
                        == id;
                assert(self.atoms@[k] == self.atoms@[k]);
            } else {
                lemma_total_unreferenced(self.atoms@, self.asset_ids@, id, true);
                lemma_total_unreferenced(self.atoms@, self.asset_ids@, id, false);
            }
        }
        true
    }
}

} // verus!
