use std::sync::Arc;

use receipts::errors::ConsensusError;
use receipts::hash::{verify_merkle_witness, Digest, MerkleWitness};
use receipts::header::{Header, HeaderMap};
use receipts::pochm::{verify_pochm, LegacyPochm, LogPathPochm, Pochm};
use receipts::posterity::{ChainBlock, PosterityError, PosterityResolver};
use receipts::tx_proofs::{verify_proof_of_pub, verify_tx_receipt, ProofOfPublication, TxReceipt};

fn d(n: u8) -> Digest {
    Digest::from_bytes([n; 32])
}

fn branch(left: Digest, right: Digest) -> Digest {
    let h = kaspa_merkle::merkle_hash(kaspa_hashes::Hash::from_bytes(left.bytes), kaspa_hashes::Hash::from_bytes(right.bytes));
    Digest::from_bytes(h.as_bytes())
}

fn header(hash: Digest, parents: Vec<Digest>, blue_score: u64) -> Header {
    Header {
        hash,
        parents_by_level: vec![parents],
        blue_score,
        pochm_merkle_root: Digest::zero(),
        accepted_id_merkle_root: Digest::zero(),
        hash_merkle_root: Digest::zero(),
        timestamp: blue_score * 1000,
    }
}

/// genesis(1) <- a(2) <- b(3) <- c(4), listed bottom first.
fn linear_legacy() -> LegacyPochm {
    let g = header(d(1), vec![], 0);
    let a = header(d(2), vec![d(1)], 1);
    let b = header(d(3), vec![d(2)], 2);
    let c = header(d(4), vec![d(3)], 3);
    LegacyPochm::new(vec![(d(1), Arc::new(g)), (d(2), Arc::new(a)), (d(3), Arc::new(b)), (d(4), Arc::new(c))])
}

#[test]
fn digest_equality_compares_bytes() {
    let mut bytes = [7u8; 32];
    assert!(d(7) == Digest::from_bytes(bytes));
    bytes[31] = 8;
    assert!(d(7) != Digest::from_bytes(bytes));
    assert!(d(7).equals(&d(7)));
    assert!(!d(7).equals(&d(9)));
}

#[test]
fn empty_witness_proves_only_the_root_itself() {
    let w = MerkleWitness::new();
    assert!(verify_merkle_witness(&w, d(5), d(5)));
    assert!(!verify_merkle_witness(&w, d(5), d(6)));
}

#[test]
fn witness_climbs_with_the_branch_hash() {
    let leaf = d(10);
    let sib = d(11);
    let upper = d(12);
    let mid = branch(leaf, sib);
    let root = branch(upper, mid);
    let mut w = MerkleWitness::new();
    w.push(sib, false);
    w.push(upper, true);
    assert!(verify_merkle_witness(&w, leaf, root));
    // the branch hash is not the identity on its left child
    assert!(!verify_merkle_witness(&w, leaf, leaf));
    assert!(!verify_merkle_witness(&w, sib, root));
    let mut swapped = MerkleWitness::new();
    swapped.push(sib, true);
    swapped.push(upper, true);
    assert!(!verify_merkle_witness(&swapped, leaf, root));
}

#[test]
fn header_map_insert_replaces_and_get_finds() {
    let mut m = HeaderMap::new();
    assert_eq!(m.count(), 0);
    assert!(m.get(&d(1)).is_none());
    m.insert(d(1), Arc::new(header(d(1), vec![], 5)));
    m.insert(d(2), Arc::new(header(d(2), vec![d(1)], 6)));
    m.insert(d(1), Arc::new(header(d(1), vec![], 9)));
    assert_eq!(m.count(), 2);
    assert_eq!(m.get(&d(1)).unwrap().blue_score, 9);
    assert_eq!(m.get(&d(2)).unwrap().blue_score, 6);
    assert!(m.get(&d(3)).is_none());
}

#[test]
fn legacy_new_takes_top_last_and_bottom_first() {
    let p = linear_legacy();
    assert!(p.top == d(4));
    assert!(p.bottom == d(1));
    assert_eq!(p.bfs_map.count(), 4);
}

#[test]
fn legacy_verifies_blocks_on_the_selected_path() {
    let p = linear_legacy();
    assert!(p.verify_path(d(4)));
    assert!(p.verify_path(d(3)));
    assert!(p.verify_path(d(1)));
    assert!(!p.verify_path(d(99)));
    // verifying again gives the same answer
    assert!(p.verify_path(d(1)));
    assert!(!p.verify_path(d(99)));
}

#[test]
fn legacy_rejects_a_mutated_anchor_hash() {
    let g = header(d(1), vec![], 0);
    let a = header(d(2), vec![d(1)], 1);
    let top = header(d(40), vec![d(2)], 2);
    let p = LegacyPochm::new(vec![(d(1), Arc::new(g)), (d(2), Arc::new(a)), (d(4), Arc::new(top))]);
    assert!(!p.verify_path(d(4)));
    assert!(!p.verify_path(d(1)));
}

#[test]
fn legacy_rejects_a_missing_or_mutated_parent() {
    let a = header(d(2), vec![d(1)], 1);
    let top = header(d(3), vec![d(2)], 2);
    let missing = LegacyPochm::new(vec![(d(2), Arc::new(a.clone())), (d(3), Arc::new(top.clone()))]);
    assert!(missing.verify_path(d(2)));
    assert!(!missing.verify_path(d(1)));

    let bad_parent = header(d(20), vec![], 1);
    let mutated = LegacyPochm::new(vec![(d(2), Arc::new(bad_parent)), (d(3), Arc::new(top))]);
    assert!(!mutated.verify_path(d(2)));
    assert!(mutated.verify_path(d(3)));
}

#[test]
fn legacy_follows_the_heaviest_parent_first_on_ties() {
    let g = header(d(1), vec![], 0);
    let x = header(d(2), vec![d(1)], 5);
    let y = header(d(3), vec![d(1)], 7);
    let z = header(d(4), vec![d(1)], 7);
    let top = header(d(5), vec![d(2), d(3), d(4)], 8);
    let p = LegacyPochm::new(vec![
        (d(1), Arc::new(g)),
        (d(2), Arc::new(x)),
        (d(3), Arc::new(y)),
        (d(4), Arc::new(z)),
        (d(5), Arc::new(top)),
    ]);
    assert!(p.verify_path(d(3)));
    assert!(!p.verify_path(d(4)));
    assert!(!p.verify_path(d(2)));
    assert!(p.verify_path(d(1)));
}

#[test]
fn legacy_mutated_blue_score_changes_the_path() {
    let g = header(d(1), vec![], 0);
    let x = header(d(2), vec![d(1)], 9);
    let y = header(d(3), vec![d(1)], 7);
    let top = header(d(5), vec![d(2), d(3)], 10);
    let p = LegacyPochm::new(vec![(d(1), Arc::new(g)), (d(2), Arc::new(x)), (d(3), Arc::new(y)), (d(5), Arc::new(top))]);
    assert!(p.verify_path(d(2)));
    assert!(!p.verify_path(d(3)));
}

#[test]
fn legacy_cycle_terminates_with_false() {
    let a = header(d(2), vec![d(3)], 1);
    let top = header(d(3), vec![d(2)], 2);
    let p = LegacyPochm::new(vec![(d(2), Arc::new(a)), (d(3), Arc::new(top))]);
    assert!(p.verify_path(d(2)));
    assert!(!p.verify_path(d(7)));
}

#[test]
fn legacy_header_without_levels_ends_the_walk() {
    let mut top = header(d(3), vec![], 2);
    top.parents_by_level = vec![];
    let p = LegacyPochm::new(vec![(d(3), Arc::new(top))]);
    assert!(p.verify_path(d(3)));
    assert!(!p.verify_path(d(1)));
}

/// origin(30) commits to mid(31), which commits to the destination.
fn log_path(destination: Digest) -> LogPathPochm {
    let sib = d(50);
    let mut mid = header(d(31), vec![d(30)], 2);
    mid.pochm_merkle_root = branch(destination, sib);
    let mut origin = header(d(30), vec![], 3);
    origin.pochm_merkle_root = branch(sib, d(31));
    let mut w0 = MerkleWitness::new();
    w0.push(sib, true);
    let mut w1 = MerkleWitness::new();
    w1.push(sib, false);
    let mut p = LogPathPochm::new();
    p.insert(Arc::new(origin), w0);
    p.insert(Arc::new(mid), w1);
    p
}

#[test]
fn log_path_verifies_its_destination() {
    let p = log_path(d(32));
    assert_eq!(p.vec.len(), 2);
    assert!(p.get_path_origin() == Some(d(30)));
    assert!(p.verify_path(d(32)));
    assert!(!p.verify_path(d(33)));
    assert!(p.verify_path(d(32)));
}

#[test]
fn empty_log_path_has_no_origin_and_holds_vacuously() {
    let p = LogPathPochm::default();
    assert!(p.get_path_origin().is_none());
    assert!(p.verify_path(d(1)));
}

#[test]
fn log_path_rejects_a_corrupted_witness_or_root() {
    let mut p = log_path(d(32));
    p.vec[0].leaf_in_pchmr_witness = MerkleWitness::new();
    assert!(!p.verify_path(d(32)));

    let mut q = log_path(d(32));
    let mut h = (*q.vec[1].header).clone();
    h.pochm_merkle_root = d(0);
    q.vec[1].header = Arc::new(h);
    assert!(!q.verify_path(d(32)));
}

#[test]
fn verify_pochm_dispatches_on_the_encoding() {
    assert!(verify_pochm(d(2), &Pochm::Legacy(linear_legacy())));
    assert!(!verify_pochm(d(9), &Pochm::Legacy(linear_legacy())));
    assert!(verify_pochm(d(32), &Pochm::LogPath(log_path(d(32)))));
    assert!(!verify_pochm(d(2), &Pochm::LogPath(log_path(d(32)))));
}

fn receipt(tx: Digest) -> TxReceipt {
    let sib = d(60);
    let mut accepting = header(d(2), vec![d(1)], 1);
    accepting.accepted_id_merkle_root = branch(d(70), sib);
    let mut w = MerkleWitness::new();
    w.push(sib, false);
    TxReceipt { tracked_tx_id: tx, accepting_block_header: Arc::new(accepting), pochm: Pochm::Legacy(linear_legacy()), tx_acc_proof: w }
}

#[test]
fn tx_receipt_verifies_and_is_stable() {
    let r = receipt(d(70));
    assert!(verify_tx_receipt(&r));
    assert!(verify_tx_receipt(&r));
    assert!(r.tracked_tx_id == d(70));
}

#[test]
fn tx_receipt_with_another_tx_id_fails() {
    let r = receipt(d(71));
    assert!(!verify_tx_receipt(&r));
}

#[test]
fn tx_receipt_with_corrupted_accepting_hash_fails() {
    let mut r = receipt(d(70));
    let mut h = (*r.accepting_block_header).clone();
    h.hash = d(88);
    r.accepting_block_header = Arc::new(h);
    assert!(!verify_tx_receipt(&r));
}

fn proof_of_pub(path: Vec<Arc<Header>>) -> ProofOfPublication {
    let sib = d(61);
    let mut publishing = header(d(80), vec![d(1)], 1);
    publishing.hash_merkle_root = branch(sib, d(90));
    let mut w = MerkleWitness::new();
    w.push(sib, true);
    ProofOfPublication {
        tracked_tx_hash: d(90),
        pub_block_header: Arc::new(publishing),
        pochm: Pochm::Legacy(linear_legacy()),
        tx_pub_proof: w,
        headers_path_to_selected: path,
    }
}

#[test]
fn proof_of_pub_on_chain_block_needs_no_bridge() {
    let mut p = proof_of_pub(vec![]);
    assert!(!verify_proof_of_pub(&p));
    let mut h = (*p.pub_block_header).clone();
    h.hash = d(3);
    p.pub_block_header = Arc::new(h);
    assert!(verify_proof_of_pub(&p));
    assert!(verify_proof_of_pub(&p));
}

#[test]
fn proof_of_pub_follows_a_parent_linked_bridge() {
    let bridge = header(d(81), vec![d(7), d(80)], 2);
    let chain_block = header(d(3), vec![d(81)], 3);
    let p = proof_of_pub(vec![Arc::new(bridge), Arc::new(chain_block)]);
    assert!(verify_proof_of_pub(&p));

    let unlinked = header(d(81), vec![d(7)], 2);
    let q = proof_of_pub(vec![Arc::new(unlinked), Arc::new(header(d(3), vec![d(81)], 3))]);
    assert!(!verify_proof_of_pub(&q));

    let mut r = proof_of_pub(vec![Arc::new(header(d(81), vec![d(80)], 2)), Arc::new(header(d(3), vec![d(81)], 3))]);
    r.tracked_tx_hash = d(91);
    assert!(!verify_proof_of_pub(&r));
}

const FINALITY_DEPTH: u64 = 20;

/// Blocks hashed 100 + i with blue score i, for i in 0..n.
fn chain(n: u64) -> Vec<ChainBlock> {
    (0..n).map(|i| ChainBlock { hash: d(100 + i as u8), blue_score: i }).collect()
}

#[test]
fn genesis_posterity_at_finality_depth() {
    let r = PosterityResolver::new(FINALITY_DEPTH, chain(FINALITY_DEPTH + 1), 0);
    let genesis = d(100);
    assert_eq!(r.get_pre_posterity_block(genesis), Ok(genesis));
    assert_eq!(r.get_post_posterity_block(genesis), Ok(d(120)));
    assert!(r.verify_post_posterity_block(genesis, d(120)));
    assert!(!r.verify_post_posterity_block(genesis, d(119)));
}

#[test]
fn posterity_before_the_first_checkpoint_is_not_yet_reached() {
    let r = PosterityResolver::new(FINALITY_DEPTH, chain(FINALITY_DEPTH), 0);
    assert_eq!(r.get_pre_posterity_block(d(105)), Ok(d(100)));
    assert_eq!(r.get_post_posterity_block(d(105)), Err(PosterityError::NotYetReached));
    assert!(!r.is_posterity_reached(FINALITY_DEPTH));
    assert!(r.is_posterity_reached(FINALITY_DEPTH - 2));
}

#[test]
fn posterity_in_the_second_interval() {
    let r = PosterityResolver::new(FINALITY_DEPTH, chain(2 * FINALITY_DEPTH + 1), 0);
    for i in 1..FINALITY_DEPTH {
        assert_eq!(r.get_pre_posterity_block(d(100 + i as u8)), Ok(d(100)));
        assert_eq!(r.get_post_posterity_block(d(100 + i as u8)), Ok(d(120)));
        assert!(r.verify_post_posterity_block(d(100 + i as u8), d(120)));
    }
    assert_eq!(r.get_pre_posterity_block(d(120)), Ok(d(120)));
    assert_eq!(r.get_post_posterity_block(d(120)), Ok(d(140)));
    assert!(r.verify_post_posterity_block(d(125), d(140)));
    assert!(!r.verify_post_posterity_block(d(125), d(120)));
    assert!(!r.verify_post_posterity_block(d(110), d(140)));
}

#[test]
fn checkpoints_follow_blue_score_jumps() {
    let blocks = vec![
        ChainBlock { hash: d(1), blue_score: 0 },
        ChainBlock { hash: d(2), blue_score: 15 },
        ChainBlock { hash: d(3), blue_score: 27 },
        ChainBlock { hash: d(4), blue_score: 33 },
        ChainBlock { hash: d(5), blue_score: 61 },
    ];
    let r = PosterityResolver::new(FINALITY_DEPTH, blocks, 0);
    assert_eq!(r.get_pre_posterity_block(d(4)), Ok(d(3)));
    assert_eq!(r.get_post_posterity_block(d(2)), Ok(d(3)));
    assert_eq!(r.get_post_posterity_block(d(4)), Ok(d(5)));
    assert_eq!(r.get_post_posterity_block(d(5)), Err(PosterityError::NotYetReached));
}

#[test]
fn posterity_of_a_pruned_interval_is_pruned() {
    let r = PosterityResolver::new(FINALITY_DEPTH, chain(3 * FINALITY_DEPTH + 1), FINALITY_DEPTH);
    assert_eq!(r.get_post_posterity_block(d(105)), Err(PosterityError::Pruned));
    assert_eq!(r.get_post_posterity_block(d(125)), Ok(d(140)));
}

#[test]
fn posterity_of_an_unknown_block_is_not_found() {
    let r = PosterityResolver::new(FINALITY_DEPTH, chain(5), 0);
    assert_eq!(r.get_pre_posterity_block(d(3)), Err(PosterityError::NotFound));
    assert_eq!(r.get_post_posterity_block(d(3)), Err(PosterityError::NotFound));
    assert!(!r.verify_post_posterity_block(d(3), d(100)));
}

#[test]
fn consensus_errors_carry_the_block() {
    let e = ConsensusError::MissingTx(d(4));
    assert!(matches!(e, ConsensusError::MissingTx(h) if h == d(4)));
    let g = ConsensusError::General("no data");
    assert!(matches!(g, ConsensusError::General("no data")));
}

#[test]
fn legacy_new_keeps_the_later_of_two_equal_keys() {
    let stale = header(d(2), vec![d(9)], 1);
    let fresh = header(d(2), vec![d(1)], 1);
    let g = header(d(1), vec![], 0);
    let top = header(d(3), vec![d(2)], 2);
    let p = LegacyPochm::new(vec![(d(1), Arc::new(g)), (d(2), Arc::new(stale)), (d(2), Arc::new(fresh)), (d(3), Arc::new(top))]);
    assert_eq!(p.bfs_map.count(), 3);
    assert!(p.bottom == d(1));
    assert!(p.verify_path(d(1)));
}
