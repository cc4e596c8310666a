use mugraph::crypto::{blind_with, sign_point, Point, Scalar, Signature};
use mugraph::delegate::{Delegate, Note, SpentSet, V0Response};
use mugraph::rpc::{health, rpc, Request, Response, V0Request};
use mugraph::error::Error;
use mugraph::transaction::{Atom, Transaction};

fn outputs(response: V0Response) -> Vec<Point> {
    match response {
        V0Response::Transaction { outputs } => outputs,
        V0Response::Error { errors } => panic!("refused: {:?}", errors),
    }
}

fn curve_point(message: &[u8]) -> Point {
    blind_with(message, &Scalar::from_bytes_mod_order([0; 32])).0
}

fn delegate() -> Delegate {
    let mut bytes = [0u8; 32];
    bytes[0] = 17;
    bytes[5] = 3;
    Delegate::new(Scalar::from_bytes_mod_order(bytes))
}

fn spend(note: &Note, signature: u32, asset_id: u32, amount: u64) -> Atom {
    Atom::Input { signature, asset_id, amount, nonce: note.nonce }
}

fn request(asset_id: u32, amount: u64, nonce: u8) -> Atom {
    Atom::Output { asset_id, amount, nonce: [nonce; 32] }
}

#[test]
fn transfer_then_resubmission_is_already_spent() {
    let mut d = delegate();
    let asset = [0x59; 32];
    let note = d.emit(asset, 50).unwrap();
    assert!(note.delegate.equals(&d.public_key()));
    assert_eq!((note.asset_id, note.amount), (asset, 50));
    let tx = Transaction {
        atoms: vec![spend(&note, 0, 0, 50), request(0, 50, 7)],
        asset_ids: vec![asset],
        signatures: vec![note.signature],
    };
    let response = outputs(d.recv_transaction_v0(&tx).unwrap());
    assert_eq!(response.len(), 1);
    let expected = sign_point(&d.secret_key(), &curve_point(&[7u8; 32]));
    assert!(response[0].equals(&expected));
    assert!(!response[0].equals(&curve_point(&[7u8; 32])));
    assert_eq!(d.recv_transaction_v0(&tx).unwrap_err(), Error::AlreadySpent);
}

#[test]
fn unbalanced_transaction_is_invalid_request() {
    let mut d = delegate();
    let note = d.emit([1; 32], 50).unwrap();
    let tx = Transaction {
        atoms: vec![spend(&note, 0, 0, 50), request(0, 49, 7)],
        asset_ids: vec![[1; 32]],
        signatures: vec![note.signature],
    };
    assert_eq!(d.recv_transaction_v0(&tx).unwrap_err(), Error::InvalidRequest);
    assert!(!tx.is_balanced());
}

#[test]
fn balance_is_per_asset_id() {
    let mut d = delegate();
    let x = d.emit([1; 32], 10).unwrap();
    let y = d.emit([2; 32], 10).unwrap();
    let swapped = Transaction {
        atoms: vec![spend(&x, 0, 0, 10), spend(&y, 1, 1, 10), request(1, 20, 3)],
        asset_ids: vec![[1; 32], [2; 32]],
        signatures: vec![x.signature, y.signature],
    };
    assert!(!swapped.is_balanced());
    assert_eq!(d.recv_transaction_v0(&swapped).unwrap_err(), Error::InvalidRequest);
    let same_id_twice = Transaction {
        atoms: vec![spend(&x, 0, 0, 10), request(1, 4, 3), request(0, 6, 4)],
        asset_ids: vec![[1; 32], [1; 32]],
        signatures: vec![x.signature],
    };
    assert!(same_id_twice.is_balanced());
    assert_eq!(outputs(d.recv_transaction_v0(&same_id_twice).unwrap()).len(), 2);
}

#[test]
fn asset_index_out_of_range_is_invalid_request() {
    let mut d = delegate();
    let tx = Transaction { atoms: vec![request(3, 0, 1)], asset_ids: vec![[1; 32]], signatures: vec![] };
    assert_eq!(d.recv_transaction_v0(&tx).unwrap_err(), Error::InvalidRequest);
}

#[test]
fn signature_index_out_of_range_is_invalid_request() {
    let mut d = delegate();
    let note = d.emit([1; 32], 5).unwrap();
    let tx = Transaction {
        atoms: vec![spend(&note, 1, 0, 5), request(0, 5, 2)],
        asset_ids: vec![[1; 32]],
        signatures: vec![note.signature],
    };
    assert_eq!(d.recv_transaction_v0(&tx).unwrap_err(), Error::InvalidRequest);
}

#[test]
fn zero_signature_is_invalid() {
    let mut d = delegate();
    let zero = Signature::from_slice(&[0u8; 64]).unwrap();
    let tx = Transaction {
        atoms: vec![Atom::Input { signature: 0, asset_id: 0, amount: 5, nonce: [1; 32] }, request(0, 5, 2)],
        asset_ids: vec![[1; 32]],
        signatures: vec![zero],
    };
    assert_eq!(d.recv_transaction_v0(&tx).unwrap_err(), Error::InvalidSignature);
}

#[test]
fn signature_over_another_nonce_is_invalid() {
    let mut d = delegate();
    let note = d.emit([1; 32], 5).unwrap();
    let tx = Transaction {
        atoms: vec![Atom::Input { signature: 0, asset_id: 0, amount: 5, nonce: [9; 32] }, request(0, 5, 2)],
        asset_ids: vec![[1; 32]],
        signatures: vec![note.signature],
    };
    assert_eq!(d.recv_transaction_v0(&tx).unwrap_err(), Error::InvalidSignature);
}

#[test]
fn note_of_another_delegate_is_invalid() {
    let mut d = delegate();
    let other = Delegate::random();
    let note = other.emit([1; 32], 5).unwrap();
    let tx = Transaction {
        atoms: vec![spend(&note, 0, 0, 5), request(0, 5, 2)],
        asset_ids: vec![[1; 32]],
        signatures: vec![note.signature],
    };
    assert_eq!(d.recv_transaction_v0(&tx).unwrap_err(), Error::InvalidSignature);
}

#[test]
fn failed_transaction_records_nothing() {
    let mut d = delegate();
    let a = d.emit([1; 32], 5).unwrap();
    let b = d.emit([1; 32], 5).unwrap();
    let failing = Transaction {
        atoms: vec![spend(&a, 0, 0, 5), spend(&b, 1, 0, 5), request(0, 10, 2)],
        asset_ids: vec![[1; 32]],
        signatures: vec![a.signature, Signature { r: b.signature.r, s: a.signature.s }],
    };
    assert_eq!(d.recv_transaction_v0(&failing).unwrap_err(), Error::InvalidSignature);
    assert!(!d.spent.contains(&a.signature.to_bytes()));
    let ok = Transaction {
        atoms: vec![spend(&a, 0, 0, 5), request(0, 5, 2)],
        asset_ids: vec![[1; 32]],
        signatures: vec![a.signature],
    };
    assert!(d.recv_transaction_v0(&ok).is_ok());
    assert!(d.spent.contains(&a.signature.to_bytes()));
}

#[test]
fn second_transaction_sharing_an_input_is_already_spent() {
    let mut d = delegate();
    let a = d.emit([1; 32], 5).unwrap();
    let b = d.emit([1; 32], 5).unwrap();
    let first = Transaction {
        atoms: vec![spend(&a, 0, 0, 5), request(0, 5, 2)],
        asset_ids: vec![[1; 32]],
        signatures: vec![a.signature],
    };
    let second = Transaction {
        atoms: vec![spend(&b, 0, 0, 5), spend(&a, 1, 0, 5), request(0, 10, 3)],
        asset_ids: vec![[1; 32]],
        signatures: vec![b.signature, a.signature],
    };
    assert!(d.recv_transaction_v0(&first).is_ok());
    assert_eq!(d.recv_transaction_v0(&second).unwrap_err(), Error::AlreadySpent);
    assert!(!d.spent.contains(&b.signature.to_bytes()));
}

#[test]
fn spent_set_records_keys() {
    let mut s = SpentSet::new();
    assert!(!s.contains(&vec![1, 2]));
    s.insert_all(vec![vec![1, 2], vec![3]]);
    assert!(s.contains(&vec![1, 2]));
    assert!(s.contains(&vec![3]));
    assert!(!s.contains(&vec![1]));
}

#[test]
fn empty_transaction_settles_with_no_outputs() {
    let mut d = delegate();
    let tx = Transaction { atoms: vec![], asset_ids: vec![], signatures: vec![] };
    assert_eq!(outputs(d.recv_transaction_v0(&tx).unwrap()).len(), 0);
}

#[test]
fn rpc_settles_then_reports_already_spent() {
    let mut d = delegate();
    let note = d.emit([4; 32], 8).unwrap();
    let tx = Transaction {
        atoms: vec![spend(&note, 0, 0, 8), request(0, 3, 1), request(0, 5, 2)],
        asset_ids: vec![[4; 32]],
        signatures: vec![note.signature],
    };
    let request = Request::V0(V0Request::Transaction(tx));
    match rpc(&mut d, &request) {
        Response::V0(V0Response::Transaction { outputs }) => assert_eq!(outputs.len(), 2),
        other => panic!("unexpected {:?}", other),
    }
    match rpc(&mut d, &request) {
        Response::V0(V0Response::Error { errors }) => assert_eq!(errors, vec![Error::AlreadySpent]),
        other => panic!("unexpected {:?}", other),
    }
}

#[test]
fn health_is_ok() {
    assert_eq!(health(), "OK");
}

#[test]
fn emitted_note_signature_verifies_over_its_nonce() {
    let d = delegate();
    let note = d.emit([2; 32], 11).unwrap();
    assert!(note.delegate.equals(&d.public_key()));
    assert_eq!((note.asset_id, note.amount), ([2; 32], 11));
    assert_eq!(mugraph::crypto::verify(&d.public_key(), &note.nonce, &note.signature), Ok(()));
    let fixed = d.emit_with([2; 32], 11, [5; 32], &Scalar::from_bytes_mod_order([3; 32])).unwrap();
    assert_eq!(fixed.nonce, [5; 32]);
    assert_eq!(mugraph::crypto::verify(&d.public_key(), &fixed.nonce, &fixed.signature), Ok(()));
}
