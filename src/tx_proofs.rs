//! Transaction receipts and proofs of publication: a Pochm anchoring a block,
//! together with a merkle witness for a transaction inside that block.
use std::sync::Arc;
use vstd::prelude::*;

use crate::hash::{verify_merkle_witness, witness_holds, Digest, MerkleWitness};
use crate::header::Header;
use crate::pochm::{pochm_holds, verify_pochm, Pochm};

verus! {

/// Proof that a transaction was accepted by a block on the selected chain.
#[derive(Clone, Debug)]
pub struct TxReceipt {
    pub tracked_tx_id: Digest,
    pub accepting_block_header: Arc<Header>,
    /// Anchors the accepting block to a posterity checkpoint.
    pub pochm: Pochm,
    /// Proves `tracked_tx_id` under the accepting block's
    /// `accepted_id_merkle_root`.
    pub tx_acc_proof: MerkleWitness,
}

/// Proof that a transaction was published in a block's body.
#[derive(Clone, Debug)]
pub struct ProofOfPublication {
    pub tracked_tx_hash: Digest,
    pub pub_block_header: Arc<Header>,
    /// Anchors the end of the bridge path to a posterity checkpoint.
    pub pochm: Pochm,
    /// Proves `tracked_tx_hash` under the publishing block's
    /// `hash_merkle_root`.
    pub tx_pub_proof: MerkleWitness,
    /// Headers leading from the publishing block to the selected chain, each
    /// a child of the one before it.
    pub headers_path_to_selected: Vec<Arc<Header>>,
}

/// Whether `receipt` holds: its Pochm proves the accepting block, and its
/// witness proves the transaction id under that block's acceptance root.
pub open spec fn tx_receipt_holds(receipt: TxReceipt) -> bool {
    &&& pochm_holds(receipt.pochm, receipt.accepting_block_header.hash@)
    &&& witness_holds(
        receipt.tx_acc_proof,
        receipt.tracked_tx_id@,
        receipt.accepting_block_header.accepted_id_merkle_root@,
    )
}

/// Whether each header of `path` has the one before it (`start` for the
/// first) among its direct parents.
pub open spec fn bridge_holds(start: Header, path: Seq<Arc<Header>>) -> bool {
    forall|i: int|
        0 <= i < path.len() ==> (#[trigger] path[i]).has_direct_parent(
            if i == 0 {
                start.hash@
            } else {
                path[i - 1].hash@
            },
        )
}

/// The hash of the block where the bridge from `start` along `path` ends.
pub open spec fn bridge_end(start: Header, path: Seq<Arc<Header>>) -> Seq<u8> {
    if path.len() == 0 {
        start.hash@
    } else {
        path.last().hash@
    }
}

/// Whether `proof` holds: the bridge path is parent-linked, the Pochm proves
/// its end, and the witness proves the transaction under the publishing
/// block's body root.
pub open spec fn proof_of_pub_holds(proof: ProofOfPublication) -> bool {
    let start = *proof.pub_block_header;
    let path = proof.headers_path_to_selected@;
    &&& bridge_holds(start, path)
    &&& pochm_holds(proof.pochm, bridge_end(start, path))
    &&& witness_holds(proof.tx_pub_proof, proof.tracked_tx_hash@, start.hash_merkle_root@)
}

/// Whether `parent` is among the direct parents of `header`.
fn has_direct_parent(header: &Header, parent: &Digest) -> (r: bool)
    ensures
        r == header.has_direct_parent(parent@),
{
    if header.parents_by_level.len() == 0 {
        return false;
    }
    let ps = &header.parents_by_level[0];
    let mut i: usize = 0;
    while i < ps.len()
        invariant
            ps@ == header.direct_parents(),
            i <= ps@.len(),
            forall|j: int| 0 <= j < i ==> ps@[j]@ != parent@,
        decreases ps@.len() - i,
    {
        if ps[i].equals(parent) {
            return true;
        }
        i = i + 1;
    }
    false
}

/// Verifies a transaction receipt.
pub fn verify_tx_receipt(receipt: &TxReceipt) -> (r: bool)
    ensures
        r == tx_receipt_holds(*receipt),
{
    let header = &receipt.accepting_block_header;
    verify_pochm(header.hash, &receipt.pochm) && verify_merkle_witness(
        &receipt.tx_acc_proof,
        receipt.tracked_tx_id,
        header.accepted_id_merkle_root,
    )
}

/// The end of the bridge from `start` along `path`, if the bridge is
/// parent-linked.
fn linked_bridge_end(start: &Header, path: &Vec<Arc<Header>>) -> (r: Option<Digest>)
    ensures
        r is Some <==> bridge_holds(*start, path@),
        r is Some ==> r->0@ == bridge_end(*start, path@),
{
    let mut end = start.hash;
    let mut i: usize = 0;
    while i < path.len()
        invariant
            i <= path@.len(),
            end@ == (if i == 0 {
                start.hash@
            } else {
                path@[i - 1].hash@
            }),
            forall|j: int|
                0 <= j < i ==> (#[trigger] path@[j]).has_direct_parent(
                    if j == 0 {
                        start.hash@
                    } else {
                        path@[j - 1].hash@
                    },
                ),
        decreases path@.len() - i,
    {
        let next: &Header = &path[i];
        if !has_direct_parent(next, &end) {
            assert(!(path@[i as int]).has_direct_parent(
                if i == 0 {
                    start.hash@
                } else {
                    path@[i - 1].hash@
                },
            ));
            return None;
        }
        end = next.hash;
        i = i + 1;
    }
    Some(end)
}

/// Verifies a proof of publication.
pub fn verify_proof_of_pub(proof: &ProofOfPublication) -> (r: bool)
    ensures
        r == proof_of_pub_holds(*proof),
{
    let start: &Header = &proof.pub_block_header;
    match linked_bridge_end(start, &proof.headers_path_to_selected) {
        Some(end) => verify_pochm(end, &proof.pochm) && verify_merkle_witness(
            &proof.tx_pub_proof,
            proof.tracked_tx_hash,
            start.hash_merkle_root,
        ),
        None => false,
    }
}

} // verus!
