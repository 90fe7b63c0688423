//! Proofs of chain membership (Pochm): evidence that a block lies on the
//! selected-parent path below an anchor block, in two encodings.
use std::sync::Arc;
use vstd::prelude::*;

use crate::hash::{verify_merkle_witness, witness_holds, Digest, MerkleWitness};
use crate::header::{map_of_pairs, Header, HeaderMap};

verus! {

/// Whether `m` holds a header under `h` whose own hash is `h`.
pub open spec fn is_consistent(m: Map<Seq<u8>, Header>, h: Seq<u8>) -> bool {
    m.contains_key(h) && m[h].hash@ == h
}

/// The position in `ps` of the first parent with the highest blue score in
/// `m`.
pub open spec fn heaviest_index(m: Map<Seq<u8>, Header>, ps: Seq<Digest>) -> int
    decreases ps.len(),
{
    if ps.len() <= 1 {
        0
    } else {
        let best = heaviest_index(m, ps.drop_last());
        if m[ps.last()@].blue_score > m[ps[best]@].blue_score {
            ps.len() - 1
        } else {
            best
        }
    }
}

/// The selected parent of the block stored under `b`: defined only when the
/// block has direct parents and every one of them is consistent in `m`.
pub open spec fn selected_parent(m: Map<Seq<u8>, Header>, b: Seq<u8>) -> Option<Digest> {
    let ps = m[b].direct_parents();
    if ps.len() > 0 && (forall|i: int| 0 <= i < ps.len() ==> is_consistent(m, #[trigger] ps[i]@)) {
        Some(ps[heaviest_index(m, ps)])
    } else {
        None
    }
}

/// The block reached after `k` steps of the selected-parent walk from `top`,
/// or `None` once a consistency check has failed.
pub open spec fn chain_walk(m: Map<Seq<u8>, Header>, top: Digest, k: nat) -> Option<Digest>
    decreases k,
{
    if k == 0 {
        if is_consistent(m, top@) {
            Some(top)
        } else {
            None
        }
    } else {
        match chain_walk(m, top, (k - 1) as nat) {
            Some(b) => selected_parent(m, b@),
            None => None,
        }
    }
}

/// Whether the walk from `top` stands on `target` after `k` steps.
pub open spec fn walk_hits(m: Map<Seq<u8>, Header>, top: Digest, k: nat, target: Seq<u8>) -> bool {
    match chain_walk(m, top, k) {
        Some(b) => b@ == target,
        None => false,
    }
}

proof fn lemma_heaviest_in_range(m: Map<Seq<u8>, Header>, ps: Seq<Digest>)
    requires
        ps.len() > 0,
    ensures
        0 <= heaviest_index(m, ps) < ps.len(),
    decreases ps.len(),
{
    if ps.len() > 1 {
        lemma_heaviest_in_range(m, ps.drop_last());
    }
}

proof fn lemma_walk_consistent(m: Map<Seq<u8>, Header>, top: Digest, k: nat)
    requires
        chain_walk(m, top, k) is Some,
    ensures
        is_consistent(m, chain_walk(m, top, k)->0@),
    decreases k,
{
    if k > 0 {
        let b = chain_walk(m, top, (k - 1) as nat)->0;
        let ps = m[b@].direct_parents();
        lemma_heaviest_in_range(m, ps);
        let i = heaviest_index(m, ps);
        assert(is_consistent(m, ps[i]@));
    }
}

proof fn lemma_walk_stops(m: Map<Seq<u8>, Header>, top: Digest, j: nat, k: nat)
    requires
        chain_walk(m, top, j) is None,
        j <= k,
    ensures
        chain_walk(m, top, k) is None,
    decreases k - j,
{
    if j < k {
        lemma_walk_stops(m, top, j, (k - 1) as nat);
    }
}

/// A Pochm that carries every header on the path from `top` (the anchor)
/// down to `bottom`, as untrusted data that verification checks again.
#[derive(Clone, Debug)]
pub struct LegacyPochm {
    pub bfs_map: HeaderMap,
    pub top: Digest,
    pub bottom: Digest,
}

impl LegacyPochm {
    /// Whether `target` is met within the first `bfs_map.len()` steps of the
    /// selected-parent walk down from `top`. A walk that is longer without
    /// meeting it revisits a block, and so never meets it.
    pub open spec fn reaches(&self, target: Seq<u8>) -> bool {
        exists|k: nat| k < self.bfs_map.len() && walk_hits(self.bfs_map@, self.top, k, target)
    }

    /// Builds the proof from headers listed bottom first: `top` is the last
    /// key and `bottom` the first.
    pub fn new(bfs_vec: Vec<(Digest, Arc<Header>)>) -> (r: LegacyPochm)
        requires
            bfs_vec@.len() > 0,
        ensures
            r.top == bfs_vec@.last().0,
            r.bottom == bfs_vec@[0].0,
            r.bfs_map@ == map_of_pairs(bfs_vec@),
    {
        let top = bfs_vec[bfs_vec.len() - 1].0;
        let bottom = bfs_vec[0].0;
        let bfs_map = HeaderMap::from_pairs(bfs_vec);
        LegacyPochm { bfs_map, top, bottom }
    }

    /// The position of the selected parent among `ps`, all of which are
    /// consistent in the map.
    fn heaviest_parent(&self, ps: &Vec<Digest>) -> (r: usize)
        requires
            ps@.len() > 0,
            forall|i: int| 0 <= i < ps@.len() ==> is_consistent(self.bfs_map@, #[trigger] ps@[i]@),
        ensures
            r == heaviest_index(self.bfs_map@, ps@),
    {
        let ghost m = self.bfs_map@;
        let mut best: usize = 0;
        let mut best_score: u64 = match self.bfs_map.get(&ps[0]) {
            Some(h) => h.blue_score,
            None => 0,
        };
        assert(ps@.take(1).drop_last().len() == 0);
        let mut i: usize = 1;
        while i < ps.len()
            invariant
                1 <= i <= ps@.len(),
                m == self.bfs_map@,
                forall|j: int| 0 <= j < ps@.len() ==> is_consistent(m, #[trigger] ps@[j]@),
                best < i,
                best == heaviest_index(m, ps@.take(i as int)),
                best_score == m[ps@[best as int]@].blue_score,
            decreases ps@.len() - i,
        {
            let score = match self.bfs_map.get(&ps[i]) {
                Some(h) => h.blue_score,
                None => 0,
            };
            assert(ps@.take(i + 1).drop_last() =~= ps@.take(i as int));
            assert(ps@.take(i as int)[best as int] == ps@[best as int]);
            if score > best_score {
                best = i;
                best_score = score;
            }
            i = i + 1;
        }
        assert(ps@.take(i as int) =~= ps@);
        best
    }

    /// Checks that `chain_purporter` lies on the selected-parent path below
    /// `top`, re-checking at each step that every header the step reads is
    /// stored under its own hash.
    pub fn verify_path(&self, chain_purporter: Digest) -> (r: bool)
        ensures
            r == self.reaches(chain_purporter@),
    {
        let ghost m = self.bfs_map@;
        match self.bfs_map.get(&self.top) {
            Some(h) => {
                if !h.hash.equals(&self.top) {
                    proof {
                        self.lemma_no_hit_from_start(chain_purporter@);
                    }
                    return false;
                }
            },
            None => {
                proof {
                    self.lemma_no_hit_from_start(chain_purporter@);
                }
                return false;
            },
        }
        let bound = self.bfs_map.count();
        let mut cur = self.top;
        let mut steps: usize = 0;
        while steps < bound
            invariant
                m == self.bfs_map@,
                bound == self.bfs_map.len(),
                steps <= bound,
                chain_walk(m, self.top, steps as nat) == Some(cur),
                forall|j: nat| j < steps ==> !walk_hits(m, self.top, j, chain_purporter@),
            decreases bound - steps,
        {
            if cur.equals(&chain_purporter) {
                assert(walk_hits(m, self.top, steps as nat, chain_purporter@));
                return true;
            }
            proof {
                lemma_walk_consistent(m, self.top, steps as nat);
            }
            let ghost cur_steps = steps as nat;
            let hdr = match self.bfs_map.get(&cur) {
                Some(h) => h,
                None => {
                    return false;
                },
            };
            let ghost ps = m[cur@].direct_parents();
            let stopped = hdr.parents_by_level.len() == 0 || hdr.parents_by_level[0].len() == 0;
            if stopped {
                proof {
                    assert(chain_walk(m, self.top, cur_steps + 1) is None);
                    self.lemma_no_hit_after(chain_purporter@, cur_steps);
                }
                return false;
            }
            let parents = &hdr.parents_by_level[0];
            let mut i: usize = 0;
            while i < parents.len()
                invariant
                    m == self.bfs_map@,
                    parents@ == ps,
                    ps == m[cur@].direct_parents(),
                    i <= ps.len(),
                    chain_walk(m, self.top, cur_steps) == Some(cur),
                    cur@ != chain_purporter@,
                    forall|j: nat| j < cur_steps ==> !walk_hits(m, self.top, j, chain_purporter@),
                    forall|j: int| 0 <= j < i ==> is_consistent(m, #[trigger] ps[j]@),
                decreases ps.len() - i,
            {
                let ok = match self.bfs_map.get(&parents[i]) {
                    Some(p) => p.hash.equals(&parents[i]),
                    None => false,
                };
                if !ok {
                    proof {
                        assert(!is_consistent(m, ps[i as int]@));
                        assert(chain_walk(m, self.top, cur_steps + 1) is None);
                        self.lemma_no_hit_after(chain_purporter@, cur_steps);
                    }
                    return false;
                }
                i = i + 1;
            }
            let best = self.heaviest_parent(parents);
            proof {
                lemma_heaviest_in_range(m, ps);
            }
            cur = parents[best];
            steps = steps + 1;
        }
        false
    }

    proof fn lemma_no_hit_from_start(&self, target: Seq<u8>)
        requires
            !is_consistent(self.bfs_map@, self.top@),
        ensures
            !self.reaches(target),
    {
        assert forall|k: nat| k < self.bfs_map.len() implies !walk_hits(
            self.bfs_map@,
            self.top,
            k,
            target,
        ) by {
            lemma_walk_stops(self.bfs_map@, self.top, 0, k);
        };
    }

    proof fn lemma_no_hit_after(&self, target: Seq<u8>, s: nat)
        requires
            forall|j: nat| j < s ==> !walk_hits(self.bfs_map@, self.top, j, target),
            !walk_hits(self.bfs_map@, self.top, s, target),
            chain_walk(self.bfs_map@, self.top, s + 1) is None,
        ensures
            !self.reaches(target),
    {
        assert forall|k: nat| k < self.bfs_map.len() implies !walk_hits(
            self.bfs_map@,
            self.top,
            k,
            target,
        ) by {
            if k > s {
                lemma_walk_stops(self.bfs_map@, self.top, s + 1, k);
            }
        };
    }
}

/// One step of a log-path proof: a header, and the witness that its
/// `pochm_merkle_root` commits to the hash of the next step.
#[derive(Clone, Debug)]
pub struct PochmSegment {
    pub header: Arc<Header>,
    pub leaf_in_pchmr_witness: MerkleWitness,
}

/// The leaf that segment `i` of `segs` must prove: the next segment's hash,
/// or `destination` for the last segment.
pub open spec fn expected_leaf(segs: Seq<PochmSegment>, destination: Seq<u8>, i: int) -> Seq<u8> {
    if i + 1 < segs.len() {
        segs[i + 1].header.hash@
    } else {
        destination
    }
}

/// Whether every segment of `segs` proves its expected leaf under its own
/// `pochm_merkle_root`.
pub open spec fn log_path_holds(segs: Seq<PochmSegment>, destination: Seq<u8>) -> bool {
    forall|i: int|
        0 <= i < segs.len() ==> witness_holds(
            #[trigger] segs[i].leaf_in_pchmr_witness,
            expected_leaf(segs, destination, i),
            segs[i].header.pochm_merkle_root@,
        )
}

/// A Pochm made of a chain of merkle commitments, origin first.
#[derive(Clone, Debug)]
pub struct LogPathPochm {
    pub vec: Vec<PochmSegment>,
}

impl LogPathPochm {
    /// The proof with no segment.
    pub fn new() -> (r: LogPathPochm)
        ensures
            r.vec@.len() == 0,
    {
        LogPathPochm { vec: Vec::new() }
    }

    /// Appends a segment at the destination end.
    pub fn insert(&mut self, header: Arc<Header>, witness: MerkleWitness)
        ensures
            final(self).vec@ == old(self).vec@.push(
                PochmSegment { header, leaf_in_pchmr_witness: witness },
            ),
    {
        self.vec.push(PochmSegment { header, leaf_in_pchmr_witness: witness });
    }

    /// The hash of the first segment's header, the anchor the proof starts
    /// from; `None` for an empty proof.
    pub fn get_path_origin(&self) -> (r: Option<Digest>)
        ensures
            r == (if self.vec@.len() > 0 {
                Some(self.vec@[0].header.hash)
            } else {
                None
            }),
    {
        if self.vec.len() > 0 {
            Some(self.vec[0].header.hash)
        } else {
            None
        }
    }

    /// Checks each segment's witness against the next segment's hash, and the
    /// last one's against `destination_block_hash`.
    pub fn verify_path(&self, destination_block_hash: Digest) -> (r: bool)
        ensures
            r == log_path_holds(self.vec@, destination_block_hash@),
    {
        let segs = &self.vec;
        let n = segs.len();
        let mut i: usize = 0;
        while i < n
            invariant
                segs == &self.vec,
                n == segs@.len(),
                i <= n,
                forall|j: int|
                    0 <= j < i ==> witness_holds(
                        #[trigger] segs@[j].leaf_in_pchmr_witness,
                        expected_leaf(segs@, destination_block_hash@, j),
                        segs@[j].header.pochm_merkle_root@,
                    ),
            decreases n - i,
        {
            let seg = &segs[i];
            let leaf = if i + 1 < n {
                segs[i + 1].header.hash
            } else {
                destination_block_hash
            };
            if !verify_merkle_witness(&seg.leaf_in_pchmr_witness, leaf, seg.header.pochm_merkle_root) {
                return false;
            }
            i = i + 1;
        }
        true
    }
}

impl Default for LogPathPochm {
    fn default() -> (r: LogPathPochm)
        ensures
            r.vec@.len() == 0,
    {
        LogPathPochm::new()
    }
}

/// A proof of chain membership in either encoding.
#[derive(Clone, Debug)]
pub enum Pochm {
    LogPath(LogPathPochm),
    Legacy(LegacyPochm),
}

/// Whether `pochm` proves that `chain_purporter` lies on its path.
pub open spec fn pochm_holds(pochm: Pochm, chain_purporter: Seq<u8>) -> bool {
    match pochm {
        Pochm::LogPath(p) => log_path_holds(p.vec@, chain_purporter),
        Pochm::Legacy(p) => p.reaches(chain_purporter),
    }
}

/// Verifies `pochm` for `chain_purporter` by the rule of its encoding.
pub fn verify_pochm(chain_purporter: Digest, pochm: &Pochm) -> (r: bool)
    ensures
        r == pochm_holds(*pochm, chain_purporter@),
{
    match pochm {
        Pochm::LogPath(p) => p.verify_path(chain_purporter),
        Pochm::Legacy(p) => p.verify_path(chain_purporter),
    }
}

/// A legacy proof whose anchor is missing from its map, or is stored under a
/// header whose own hash differs, proves no block.
pub proof fn lemma_legacy_rejects_inconsistent_anchor(pochm: LegacyPochm, target: Seq<u8>)
    requires
        !is_consistent(pochm.bfs_map@, pochm.top@),
    ensures
        !pochm.reaches(target),
{
    pochm.lemma_no_hit_from_start(target);
}

/// A legacy proof whose walk, before meeting `target`, stands on a block
/// with a direct parent that is missing from the map or stored under a header
/// with another hash, does not prove `target`.
pub proof fn lemma_legacy_rejects_broken_step(pochm: LegacyPochm, target: Seq<u8>, k: nat, i: int)
    requires
        forall|j: nat| j <= k ==> !walk_hits(pochm.bfs_map@, pochm.top, j, target),
        chain_walk(pochm.bfs_map@, pochm.top, k) is Some,
        0 <= i < pochm.bfs_map@[chain_walk(pochm.bfs_map@, pochm.top, k)->0@].direct_parents().len(),
        !is_consistent(
            pochm.bfs_map@,
            pochm.bfs_map@[chain_walk(pochm.bfs_map@, pochm.top, k)->0@].direct_parents()[i]@,
        ),
    ensures
        !pochm.reaches(target),
{
    assert(!walk_hits(pochm.bfs_map@, pochm.top, k, target));
    pochm.lemma_no_hit_after(target, k);
}

/// A log-path proof with a segment whose witness does not prove its expected
/// leaf under its header's `pochm_merkle_root` proves no destination.
pub proof fn lemma_log_path_rejects_broken_segment(
    pochm: LogPathPochm,
    destination: Seq<u8>,
    i: int,
)
    requires
        0 <= i < pochm.vec@.len(),
        !witness_holds(
            pochm.vec@[i].leaf_in_pchmr_witness,
            expected_leaf(pochm.vec@, destination, i),
            pochm.vec@[i].header.pochm_merkle_root@,
        ),
    ensures
        !log_path_holds(pochm.vec@, destination),
{
}

} // verus!
