//! Proofs of chain membership for a BlockDAG ledger, with the transaction
//! receipts and proofs of publication built on top of them.
//!
//! Every verification routine here is a pure function of the proof data: a
//! malformed or adversarial proof is answered with `false`, never a panic.
use vstd::prelude::*;

pub mod hash;
pub mod header;
pub mod pochm;
pub mod tx_proofs;
pub mod errors;
pub mod posterity;
