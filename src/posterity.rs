//! Posterity checkpoints: the selected-chain blocks that open each finality
//! interval, and the resolution of a block to the checkpoints around it.
use vstd::prelude::*;

use crate::hash::Digest;

verus! {

/// A block of the selected chain, with its chain-position metric.
#[derive(Clone, Copy, Debug)]
pub struct ChainBlock {
    pub hash: Digest,
    pub blue_score: u64,
}

/// Why a checkpoint query could not be answered.
#[derive(Clone, Copy, Debug, PartialEq, Eq, Structural)]
pub enum PosterityError {
    /// The block is not on the retained selected chain.
    NotFound,
    /// The chain has not yet grown far enough to establish the checkpoint.
    NotYetReached,
    /// The interval of the block lies below the retention boundary.
    Pruned,
}

/// Whether entry `i` of `chain` is a checkpoint: the genesis entry, or the
/// first entry whose blue score falls in a new interval of `depth`.
pub open spec fn is_checkpoint(chain: Seq<ChainBlock>, depth: int, i: int) -> bool {
    &&& 0 <= i < chain.len()
    &&& (i == 0 || chain[i].blue_score as int / depth > chain[i - 1].blue_score as int / depth)
}

/// The last checkpoint at or before entry `b`.
pub open spec fn pre_index(chain: Seq<ChainBlock>, depth: int, b: int) -> int
    decreases b,
{
    if b <= 0 {
        0
    } else if is_checkpoint(chain, depth, b) {
        b
    } else {
        pre_index(chain, depth, b - 1)
    }
}

/// The first checkpoint at or after entry `c`; the chain's length if there
/// is none.
pub open spec fn next_checkpoint(chain: Seq<ChainBlock>, depth: int, c: int) -> int
    decreases chain.len() - c,
{
    if c >= chain.len() {
        chain.len() as int
    } else if is_checkpoint(chain, depth, c) {
        c
    } else {
        next_checkpoint(chain, depth, c + 1)
    }
}

/// The first checkpoint strictly after entry `b`; the chain's length if
/// there is none yet.
pub open spec fn post_index(chain: Seq<ChainBlock>, depth: int, b: int) -> int {
    next_checkpoint(chain, depth, b + 1)
}

/// Whether `c` is the checkpoint that directly follows entry `b`.
pub open spec fn is_next_checkpoint(chain: Seq<ChainBlock>, depth: int, b: int, c: int) -> bool {
    &&& b < c
    &&& is_checkpoint(chain, depth, c)
    &&& forall|j: int| b < j < c ==> !is_checkpoint(chain, depth, j)
}

/// The position of the first entry at or after `i` with hash `h`; the
/// chain's length if there is none.
pub open spec fn first_from(chain: Seq<ChainBlock>, h: Seq<u8>, i: int) -> int
    decreases chain.len() - i,
{
    if i >= chain.len() {
        chain.len() as int
    } else if chain[i].hash@ == h {
        i
    } else {
        first_from(chain, h, i + 1)
    }
}

/// The position of block `h` on `chain`; the chain's length if absent.
pub open spec fn index_of(chain: Seq<ChainBlock>, h: Seq<u8>) -> int {
    first_from(chain, h, 0)
}

proof fn lemma_first_from_bounds(chain: Seq<ChainBlock>, h: Seq<u8>, i: int)
    requires
        0 <= i,
    ensures
        i <= first_from(chain, h, i) <= chain.len() || (i > chain.len() && first_from(chain, h, i)
            == chain.len()),
    decreases chain.len() - i,
{
    if i < chain.len() && chain[i].hash@ != h {
        lemma_first_from_bounds(chain, h, i + 1);
    }
}

proof fn lemma_next_checkpoint(chain: Seq<ChainBlock>, depth: int, c: int)
    requires
        0 <= c,
    ensures
        next_checkpoint(chain, depth, c) >= c || c > chain.len(),
        next_checkpoint(chain, depth, c) <= chain.len(),
        next_checkpoint(chain, depth, c) < chain.len() ==> is_checkpoint(
            chain,
            depth,
            next_checkpoint(chain, depth, c),
        ),
        forall|j: int| c <= j < next_checkpoint(chain, depth, c) ==> !is_checkpoint(chain, depth, j),
    decreases chain.len() - c,
{
    if c < chain.len() && !is_checkpoint(chain, depth, c) {
        lemma_next_checkpoint(chain, depth, c + 1);
    }
}

proof fn lemma_pre_index(chain: Seq<ChainBlock>, depth: int, b: int)
    requires
        0 <= b < chain.len(),
    ensures
        0 <= pre_index(chain, depth, b) <= b,
        is_checkpoint(chain, depth, pre_index(chain, depth, b)),
        forall|j: int| pre_index(chain, depth, b) < j <= b ==> !is_checkpoint(chain, depth, j),
    decreases b,
{
    if b > 0 && !is_checkpoint(chain, depth, b) {
        lemma_pre_index(chain, depth, b - 1);
    }
}

/// Resolves blocks of the selected chain to posterity checkpoints.
pub struct PosterityResolver {
    /// The length of a finality interval, in blue score.
    pub finality_depth: u64,
    /// The selected chain, genesis first.
    pub selected_chain: Vec<ChainBlock>,
    /// Checkpoints with a lower blue score have been pruned, together with
    /// the data of their intervals.
    pub retention_score: u64,
}

impl PosterityResolver {
    /// The answer to a post-posterity query for entry `b`.
    pub open spec fn post_result(&self, b: int) -> Result<Digest, PosterityError> {
        let chain = self.selected_chain@;
        let depth = self.finality_depth as int;
        if chain[pre_index(chain, depth, b)].blue_score < self.retention_score {
            Err(PosterityError::Pruned)
        } else if post_index(chain, depth, b) >= chain.len() {
            Err(PosterityError::NotYetReached)
        } else {
            Ok(chain[post_index(chain, depth, b)].hash)
        }
    }

    /// A resolver over `selected_chain` with intervals of `finality_depth`.
    pub fn new(finality_depth: u64, selected_chain: Vec<ChainBlock>, retention_score: u64) -> (r:
        PosterityResolver)
        requires
            finality_depth > 0,
        ensures
            r.finality_depth == finality_depth,
            r.selected_chain@ == selected_chain@,
            r.retention_score == retention_score,
    {
        PosterityResolver { finality_depth, selected_chain, retention_score }
    }

    /// The position of `hash` on the chain, if it is there.
    fn find(&self, hash: &Digest) -> (r: Option<usize>)
        ensures
            r is Some <==> index_of(self.selected_chain@, hash@) < self.selected_chain@.len(),
            r is Some ==> r->0 == index_of(self.selected_chain@, hash@),
    {
        let chain = &self.selected_chain;
        let mut i: usize = 0;
        while i < chain.len()
            invariant
                chain@ == self.selected_chain@,
                i <= chain@.len(),
                index_of(chain@, hash@) == first_from(chain@, hash@, i as int),
            decreases chain@.len() - i,
        {
            if chain[i].hash.equals(hash) {
                return Some(i);
            }
            i = i + 1;
        }
        None
    }

    fn checkpoint_at(&self, i: usize) -> (r: bool)
        requires
            self.finality_depth > 0,
            i < self.selected_chain@.len(),
        ensures
            r == is_checkpoint(self.selected_chain@, self.finality_depth as int, i as int),
    {
        if i == 0 {
            return true;
        }
        let d = self.finality_depth;
        self.selected_chain[i].blue_score / d > self.selected_chain[i - 1].blue_score / d
    }

    fn pre_position(&self, b: usize) -> (r: usize)
        requires
            self.finality_depth > 0,
            b < self.selected_chain@.len(),
        ensures
            r == pre_index(self.selected_chain@, self.finality_depth as int, b as int),
    {
        let ghost chain = self.selected_chain@;
        let ghost depth = self.finality_depth as int;
        let mut c: usize = b;
        while c > 0 && !self.checkpoint_at(c)
            invariant
                self.finality_depth > 0,
                c <= b < chain.len(),
                chain == self.selected_chain@,
                depth == self.finality_depth as int,
                pre_index(chain, depth, b as int) == pre_index(chain, depth, c as int),
            decreases c,
        {
            c = c - 1;
        }
        c
    }

    fn post_position(&self, b: usize) -> (r: usize)
        requires
            self.finality_depth > 0,
            b < self.selected_chain@.len(),
        ensures
            r == post_index(self.selected_chain@, self.finality_depth as int, b as int),
    {
        let ghost chain = self.selected_chain@;
        let ghost depth = self.finality_depth as int;
        let n: usize = self.selected_chain.len();
        let mut c: usize = b + 1;
        while c < self.selected_chain.len() && !self.checkpoint_at(c)
            invariant
                self.finality_depth > 0,
                b < c <= chain.len(),
                chain == self.selected_chain@,
                depth == self.finality_depth as int,
                post_index(chain, depth, b as int) == next_checkpoint(chain, depth, c as int),
            decreases chain.len() - c,
        {
            c = c + 1;
        }
        c
    }

    /// The checkpoint at or immediately before `hash` on the selected chain.
    pub fn get_pre_posterity_block(&self, hash: Digest) -> (r: Result<Digest, PosterityError>)
        requires
            self.finality_depth > 0,
        ensures
            ({
                let chain = self.selected_chain@;
                let b = index_of(chain, hash@);
                if b < chain.len() {
                    r == Ok::<Digest, PosterityError>(
                        chain[pre_index(chain, self.finality_depth as int, b)].hash,
                    )
                } else {
                    r == Err::<Digest, PosterityError>(PosterityError::NotFound)
                }
            }),
    {
        match self.find(&hash) {
            Some(b) => {
                let c = self.pre_position(b);
                proof {
                    lemma_pre_index(self.selected_chain@, self.finality_depth as int, b as int);
                }
                Ok(self.selected_chain[c].hash)
            },
            None => Err(PosterityError::NotFound),
        }
    }

    /// The checkpoint strictly after `hash` on the selected chain.
    pub fn get_post_posterity_block(&self, hash: Digest) -> (r: Result<Digest, PosterityError>)
        requires
            self.finality_depth > 0,
        ensures
            ({
                let b = index_of(self.selected_chain@, hash@);
                if b < self.selected_chain@.len() {
                    r == self.post_result(b)
                } else {
                    r == Err::<Digest, PosterityError>(PosterityError::NotFound)
                }
            }),
    {
        match self.find(&hash) {
            Some(b) => {
                let c = self.pre_position(b);
                proof {
                    lemma_pre_index(self.selected_chain@, self.finality_depth as int, b as int);
                }
                if self.selected_chain[c].blue_score < self.retention_score {
                    return Err(PosterityError::Pruned);
                }
                let p = self.post_position(b);
                if p >= self.selected_chain.len() {
                    Err(PosterityError::NotYetReached)
                } else {
                    Ok(self.selected_chain[p].hash)
                }
            },
            None => Err(PosterityError::NotFound),
        }
    }

    /// Checks, by scanning the chain between the two blocks, that
    /// `candidate` is the checkpoint directly after `hash`.
    pub fn verify_post_posterity_block(&self, hash: Digest, candidate: Digest) -> (r: bool)
        requires
            self.finality_depth > 0,
        ensures
            r == ({
                let chain = self.selected_chain@;
                let b = index_of(chain, hash@);
                let c = index_of(chain, candidate@);
                b < chain.len() && is_next_checkpoint(chain, self.finality_depth as int, b, c)
            }),
    {
        let b = match self.find(&hash) {
            Some(b) => b,
            None => {
                return false;
            },
        };
        let c = match self.find(&candidate) {
            Some(c) => c,
            None => {
                proof {
                    lemma_first_from_bounds(self.selected_chain@, candidate@, 0);
                }
                return false;
            },
        };
        if c <= b || !self.checkpoint_at(c) {
            return false;
        }
        let mut j: usize = b + 1;
        while j < c
            invariant
                self.finality_depth > 0,
                b < j <= c < self.selected_chain@.len(),
                b as int == index_of(self.selected_chain@, hash@),
                c as int == index_of(self.selected_chain@, candidate@),
                forall|k: int|
                    b < k < j ==> !is_checkpoint(
                        self.selected_chain@,
                        self.finality_depth as int,
                        k,
                    ),
            decreases c - j,
        {
            if self.checkpoint_at(j) {
                return false;
            }
            j = j + 1;
        }
        true
    }

    /// Whether the chain tip's blue score has passed `target_score`.
    pub fn is_posterity_reached(&self, target_score: u64) -> (r: bool)
        ensures
            r == (self.selected_chain@.len() > 0 && self.selected_chain@.last().blue_score
                > target_score),
    {
        let n = self.selected_chain.len();
        n > 0 && self.selected_chain[n - 1].blue_score > target_score
    }
}

/// For every block `b` of the selected chain: its pre-posterity is a
/// checkpoint at or before it, its post-posterity (once the chain has one) is
/// the checkpoint strictly after it, and no checkpoint lies between the two,
/// so they are consecutive checkpoints.
pub proof fn lemma_posterity_consecutive(chain: Seq<ChainBlock>, depth: int, b: int)
    requires
        depth > 0,
        0 <= b < chain.len(),
    ensures
        0 <= pre_index(chain, depth, b) <= b,
        is_checkpoint(chain, depth, pre_index(chain, depth, b)),
        b < post_index(chain, depth, b) <= chain.len(),
        post_index(chain, depth, b) < chain.len() ==> is_next_checkpoint(
            chain,
            depth,
            b,
            post_index(chain, depth, b),
        ),
        forall|j: int|
            pre_index(chain, depth, b) < j < post_index(chain, depth, b) ==> !is_checkpoint(
                chain,
                depth,
                j,
            ),
{
    lemma_pre_index(chain, depth, b);
    lemma_next_checkpoint(chain, depth, b + 1);
}

/// Genesis is its own pre-posterity, and while its interval is retained its
/// post-posterity is the first checkpoint after it, once one exists.
pub proof fn lemma_genesis_posterity(resolver: PosterityResolver)
    requires
        resolver.finality_depth > 0,
        resolver.selected_chain@.len() > 0,
        resolver.selected_chain@[0].blue_score >= resolver.retention_score,
    ensures
        ({
            let chain = resolver.selected_chain@;
            let depth = resolver.finality_depth as int;
            let first = next_checkpoint(chain, depth, 1);
            &&& pre_index(chain, depth, 0) == 0
            &&& first < chain.len() ==> resolver.post_result(0) == Ok::<Digest, PosterityError>(
                chain[first].hash,
            ) && is_next_checkpoint(chain, depth, 0, first)
            &&& first >= chain.len() ==> resolver.post_result(0) == Err::<Digest, PosterityError>(
                PosterityError::NotYetReached,
            )
        }),
{
    lemma_posterity_consecutive(resolver.selected_chain@, resolver.finality_depth as int, 0);
}

} // verus!
