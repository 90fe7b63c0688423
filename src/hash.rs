//! Block and transaction hashes, and merkle witnesses over them.
use vstd::prelude::*;

verus! {

/// Number of bytes in a hash.
pub const HASH_SIZE: usize = 32;

/// A 256-bit hash, identifying a block or a transaction.
#[derive(Clone, Copy, Debug)]
pub struct Digest {
    pub bytes: [u8; 32],
}

impl View for Digest {
    type V = Seq<u8>;

    open spec fn view(&self) -> Seq<u8> {
        self.bytes@
    }
}

impl Digest {
    /// The hash whose bytes are `bytes`.
    pub fn from_bytes(bytes: [u8; 32]) -> (r: Digest)
        ensures
            r@ == bytes@,
    {
        Digest { bytes }
    }

    /// The all-zero hash.
    pub fn zero() -> (r: Digest)
        ensures
            r@ == Seq::new(32, |i: int| 0u8),
    {
        let r = Digest { bytes: [0u8; 32] };
        assert(r@ =~= Seq::new(32, |i: int| 0u8));
        r
    }

    /// Compares two hashes byte by byte.
    pub fn equals(&self, other: &Digest) -> (r: bool)
        ensures
            r == (self@ == other@),
    {
        let mut i: usize = 0;
        while i < HASH_SIZE
            invariant
                i <= HASH_SIZE,
                self@.len() == HASH_SIZE,
                other@.len() == HASH_SIZE,
                forall|j: int| 0 <= j < i ==> self@[j] == other@[j],
            decreases HASH_SIZE - i,
        {
            if self.bytes[i] != other.bytes[i] {
                return false;
            }
            i = i + 1;
        }
        assert(self@ =~= other@);
        true
    }
}

impl PartialEq for Digest {
    fn eq(&self, other: &Digest) -> (r: bool) {
        self.equals(other)
    }
}

impl vstd::std_specs::cmp::PartialEqSpecImpl for Digest {
    open spec fn obeys_eq_spec() -> bool {
        true
    }

    open spec fn eq_spec(&self, other: &Digest) -> bool {
        self@ == other@
    }
}

/// What the merkle branch hash of two child nodes is.
pub uninterp spec fn merkle_branch_of(left: Seq<u8>, right: Seq<u8>) -> Seq<u8>;

/// Relies on `kaspa_merkle::merkle_hash`: the inner-node hash of a merkle tree,
/// a function of the bytes of its two children alone; the result is 32 bytes
/// by its type.
#[verifier::external_body]
fn branch_hash(left: &Digest, right: &Digest) -> (r: Digest)
    ensures
        r@ == merkle_branch_of(left@, right@),
{
    let l = kaspa_hashes::Hash::from_bytes(left.bytes);
    let r = kaspa_hashes::Hash::from_bytes(right.bytes);
    Digest { bytes: kaspa_merkle::merkle_hash(l, r).as_bytes() }
}

/// One level of a merkle witness: the sibling of the node on the path, and
/// which side it stands on.
#[derive(Clone, Copy, Debug)]
pub struct WitnessStep {
    pub sibling: Digest,
    pub sibling_on_left: bool,
}

/// The sibling path from a leaf up to the root of a merkle tree, lowest level
/// first.
#[derive(Clone, Debug)]
pub struct MerkleWitness {
    pub steps: Vec<WitnessStep>,
}

/// The parent of node `node` under step `s`.
pub open spec fn climb(s: WitnessStep, node: Seq<u8>) -> Seq<u8> {
    if s.sibling_on_left {
        merkle_branch_of(s.sibling@, node)
    } else {
        merkle_branch_of(node, s.sibling@)
    }
}

/// The root reached from `leaf` by following `steps` upward.
pub open spec fn witness_root(steps: Seq<WitnessStep>, leaf: Seq<u8>) -> Seq<u8>
    decreases steps.len(),
{
    if steps.len() == 0 {
        leaf
    } else {
        climb(steps.last(), witness_root(steps.drop_last(), leaf))
    }
}

/// Whether `witness` proves that `leaf` is included under `root`.
pub open spec fn witness_holds(witness: MerkleWitness, leaf: Seq<u8>, root: Seq<u8>) -> bool {
    witness_root(witness.steps@, leaf) == root
}

impl MerkleWitness {
    /// A witness with no levels: it proves a leaf that is itself the root.
    pub fn new() -> (r: MerkleWitness)
        ensures
            r.steps@.len() == 0,
    {
        MerkleWitness { steps: Vec::new() }
    }

    /// Adds the next level up to the path.
    pub fn push(&mut self, sibling: Digest, sibling_on_left: bool)
        ensures
            final(self).steps@ == old(self).steps@.push(
                WitnessStep { sibling, sibling_on_left },
            ),
    {
        self.steps.push(WitnessStep { sibling, sibling_on_left });
    }
}

/// Checks that `witness` leads from `leaf_hash` to `root_hash`.
pub fn verify_merkle_witness(witness: &MerkleWitness, leaf_hash: Digest, root_hash: Digest) -> (r:
    bool)
    ensures
        r == witness_holds(*witness, leaf_hash@, root_hash@),
{
    let steps = &witness.steps;
    let mut node = leaf_hash;
    let mut i: usize = 0;
    while i < steps.len()
        invariant
            i <= steps@.len(),
            steps == &witness.steps,
            node@ == witness_root(steps@.take(i as int), leaf_hash@),
        decreases steps@.len() - i,
    {
        let s = steps[i];
        let up = if s.sibling_on_left {
            branch_hash(&s.sibling, &node)
        } else {
            branch_hash(&node, &s.sibling)
        };
        assert(steps@.take(i + 1).drop_last() =~= steps@.take(i as int));
        node = up;
        i = i + 1;
    }
    assert(steps@.take(i as int) =~= steps@);
    node.equals(&root_hash)
}

} // verus!
