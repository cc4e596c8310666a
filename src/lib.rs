//! Blind-signature note settlement: canonical encodings, the crypto engine,
//! transaction validation and the note fusion computation.

pub mod error;
pub mod types;
pub mod crypto;
pub mod fusion;
pub mod transaction;
pub mod delegate;
pub mod rpc;

pub use error::Error;

