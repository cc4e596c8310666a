use vstd::prelude::*;

verus! {

/// Every way an operation of this library can fail.
#[derive(Debug, Clone, Copy, PartialEq, Eq, Structural)]
pub enum Error {
    /// The request is malformed: an index out of range or an unbalanced transaction.
    InvalidRequest,
    /// An input signature is zero or does not authenticate its nonce.
    InvalidSignature,
    /// An input signature has already been recorded as spent.
    AlreadySpent,
    /// The spent-signature store could not complete an atomic operation.
    StorageError,
    /// An atom is malformed.
    InvalidAtom,
    /// A public or secret key is malformed.
    InvalidKey,
    /// A hash is malformed.
    InvalidHash,
    /// A discrete-log-equality proof did not verify.
    InvalidDLEQProof,
    /// An unblinded point is not the signature of the message under the key.
    InvalidUnblindedPoint,
    /// A byte slice has the wrong length or does not decode to a value.
    InvalidEncoding,
}

} // verus!
