use crate::delegate::{input_keys, settle, Delegate, V0Response};
use crate::error::Error;
use crate::crypto::Point;
use crate::transaction::Transaction;
use vstd::prelude::*;

verus! {

/// A request of the first protocol version.
#[derive(Debug, Clone)]
pub enum V0Request {
    /// Settle a transaction.
    Transaction(Transaction),
}

/// A versioned request.
#[derive(Debug, Clone)]
pub enum Request {
    V0(V0Request),
}

/// A versioned response.
#[derive(Debug, Clone)]
pub enum Response {
    V0(V0Response),
}

/// The liveness answer, independent of any protocol state.
pub fn health() -> (r: &'static str)
    ensures
        r@ == seq!['O', 'K'],
{
    proof {
        reveal_strlit("OK");
    }
    "OK"
}

/// Answers a request: a transaction is settled by the delegate, and a
/// refusal comes back as an error response carrying its reason.
pub fn rpc(delegate: &mut Delegate, request: &Request) -> (r: Response)
    ensures
        final(delegate).keypair == old(delegate).keypair,
        match request {
            Request::V0(V0Request::Transaction(tx)) => match settle(
                *tx,
                old(delegate).keypair,
                old(delegate).spent@,
            ) {
                Ok(outputs) => r matches Response::V0(V0Response::Transaction { outputs: points })
                    && points@.map_values(|p: Point| p@) == outputs && final(delegate).spent@ == old(
                    delegate,
                ).spent@ + input_keys(tx.atoms@, tx.signatures@),
                Err(e) => r matches Response::V0(V0Response::Error { errors }) && errors@ == seq![e]
                    && final(delegate).spent@ == old(delegate).spent@,
            },
        },
{
    match request {
        Request::V0(V0Request::Transaction(tx)) => match delegate.recv_transaction_v0(tx) {
            Ok(response) => Response::V0(response),
            Err(e) => {
                let errors: Vec<Error> = vec![e];
                Response::V0(V0Response::Error { errors })
            },
        },
    }
}

} // verus!
