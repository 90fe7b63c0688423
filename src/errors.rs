//! Errors of the consensus layer that proof generation reports.
use vstd::prelude::*;

use crate::hash::Digest;

verus! {

/// What went wrong while looking up data for a block or transaction.
#[derive(Clone, Debug)]
pub enum ConsensusError {
    BlockNotFound(Digest),
    HeaderNotFound(Digest),
    InvalidBlock(Digest),
    MissingData(Digest),
    MissingTx(Digest),
    UnexpectedPruningPoint,
    PruningPointInsufficientDepth,
    General(&'static str),
    GeneralOwned(String),
}

} // verus!
