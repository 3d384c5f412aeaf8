//! Incremental Merkle accumulator over Keccak-256 digests.

use vstd::prelude::*;

verus! {

/// A fixed-width hash value: a leaf of the tree or a node of it.
pub type Digest = [u8; 32];

/// Depth of the tree, fixed by the on-chain contract.
pub const TREE_DEPTH: usize = 32;

/// Largest number of leaves the tree accepts.
pub const MAX_LEAVES: u64 = 4294967295;

/// The Keccak-256 digest of a byte string.
pub uninterp spec fn keccak_of(data: Seq<u8>) -> Seq<u8>;

/// Hash of two nodes: Keccak-256 of their concatenation.
pub open spec fn hash_pair(left: Seq<u8>, right: Seq<u8>) -> Seq<u8> {
    keccak_of(left + right)
}

/// The node of an empty subtree of height `h`.
pub open spec fn zero_hash(h: nat) -> Seq<u8>
    decreases h,
{
    if h == 0 {
        Seq::new(32, |i: int| 0u8)
    } else {
        hash_pair(zero_hash((h - 1) as nat), zero_hash((h - 1) as nat))
    }
}

/// The node at height `h` and position `j` of the tree whose leaves are
/// `leaves`, every position past the end holding the zero leaf.
pub open spec fn node(leaves: Seq<Digest>, h: nat, j: nat) -> Seq<u8>
    decreases h,
{
    if h == 0 {
        if j < leaves.len() {
            leaves[j as int]@
        } else {
            zero_hash(0)
        }
    } else {
        hash_pair(node(leaves, (h - 1) as nat, 2 * j), node(leaves, (h - 1) as nat, 2 * j + 1))
    }
}

/// The root of the tree of depth `TREE_DEPTH` over `leaves`.
pub open spec fn merkle_root(leaves: Seq<Digest>) -> Seq<u8> {
    node(leaves, TREE_DEPTH as nat, 0)
}

/// Number of nodes at height `h` that hold at least one of `n` leaves.
pub open spec fn level_len(n: nat, h: nat) -> nat
    decreases h,
{
    if h == 0 {
        n
    } else {
        ((level_len(n, (h - 1) as nat) + 1) / 2) as nat
    }
}

/// Number of complete nodes at height `h` over `n` leaves; also the position
/// at height `h` of the node above leaf `n`.
pub open spec fn level_floor(n: nat, h: nat) -> nat
    decreases h,
{
    if h == 0 {
        n
    } else {
        level_floor(n, (h - 1) as nat) / 2
    }
}

/// Two to the power `k`.
pub open spec fn capacity(k: nat) -> nat
    decreases k,
{
    if k == 0 {
        1
    } else {
        2 * capacity((k - 1) as nat)
    }
}

/// A node at or past the end of its level is the zero node of its height.
pub proof fn lemma_node_past_end(leaves: Seq<Digest>, h: nat, j: nat)
    requires
        j >= level_len(leaves.len(), h),
    ensures
        node(leaves, h, j) == zero_hash(h),
    decreases h,
{
    if h > 0 {
        lemma_node_past_end(leaves, (h - 1) as nat, 2 * j);
        lemma_node_past_end(leaves, (h - 1) as nat, 2 * j + 1);
    }
}

/// Relies on sha3::Keccak256 (through the `Digest::digest` method): the
/// Keccak-256 digest of the bytes, a function of the bytes alone.
#[verifier::external_body]
fn keccak256(data: &[u8]) -> (r: Digest)
    ensures
        r@ == keccak_of(data@),
{
    <sha3::Keccak256 as sha3::Digest>::digest(data).into()
}

/// Hash of two digests, left then right.
pub fn hash_concat(left: &Digest, right: &Digest) -> (r: Digest)
    ensures
        r@ == hash_pair(left@, right@),
{
    let mut buf: Vec<u8> = Vec::with_capacity(64);
    let mut i: usize = 0;
    while i < 32
        invariant
            i <= 32,
            buf@ == left@.subrange(0, i as int),
        decreases 32 - i,
    {
        buf.push(left[i]);
        i = i + 1;
    }
    let mut k: usize = 0;
    while k < 32
        invariant
            k <= 32,
            buf@ == left@ + right@.subrange(0, k as int),
        decreases 32 - k,
    {
        buf.push(right[k]);
        k = k + 1;
    }
    assert(left@.subrange(0, 32) =~= left@);
    assert(right@.subrange(0, 32) =~= right@);
    keccak256(buf.as_slice())
}

/// Whether two digests hold the same bytes.
pub fn digest_eq(a: &Digest, b: &Digest) -> (r: bool)
    ensures
        r == (a@ == b@),
{
    let mut i: usize = 0;
    while i < 32
        invariant
            i <= 32,
            forall|k: int| 0 <= k < i ==> a@[k] == b@[k],
        decreases 32 - i,
    {
        if a[i] != b[i] {
            return false;
        }
        i = i + 1;
    }
    assert(a@ =~= b@);
    true
}

/// The zero nodes of every height from 0 to `TREE_DEPTH`.
pub fn zero_hashes() -> (r: Vec<Digest>)
    ensures
        r@.len() == TREE_DEPTH + 1,
        forall|h: int| 0 <= h <= TREE_DEPTH ==> #[trigger] r@[h]@ == zero_hash(h as nat),
{
    let mut r: Vec<Digest> = Vec::new();
    let z: Digest = [0u8; 32];
    assert(z@ =~= zero_hash(0));
    r.push(z);
    let mut h: usize = 1;
    while h <= TREE_DEPTH
        invariant
            1 <= h <= TREE_DEPTH + 1,
            r@.len() == h,
            forall|k: int| 0 <= k < h ==> #[trigger] r@[k]@ == zero_hash(k as nat),
        decreases TREE_DEPTH + 1 - h,
    {
        let below = r[h - 1];
        let next = hash_concat(&below, &below);
        r.push(next);
        h = h + 1;
    }
    r
}


/// Position of the sibling of position `f` on the same level.
pub open spec fn sibling(f: nat) -> nat {
    if f % 2 == 0 {
        f + 1
    } else {
        (f - 1) as nat
    }
}

/// The sibling path of leaf `i`, from the leaves up.
pub open spec fn proof_path(leaves: Seq<Digest>, i: nat) -> Seq<Seq<u8>> {
    Seq::new(TREE_DEPTH as nat, |h: int| node(leaves, h as nat, sibling(level_floor(i, h as nat))))
}

/// The bytes of each digest of a sequence.
pub open spec fn digests_view(s: Seq<Digest>) -> Seq<Seq<u8>> {
    s.map_values(|d: Digest| d@)
}

/// The node reached after climbing `h` levels from `leaf` at position
/// `index`, hashing in the siblings that `path` gives.
pub open spec fn fold_path(leaf: Seq<u8>, path: Seq<Seq<u8>>, index: nat, h: nat) -> Seq<u8>
    decreases h,
{
    if h == 0 {
        leaf
    } else {
        let below = fold_path(leaf, path, index, (h - 1) as nat);
        if level_floor(index, (h - 1) as nat) % 2 == 1 {
            hash_pair(path[h - 1], below)
        } else {
            hash_pair(below, path[h - 1])
        }
    }
}

/// The root that `path` leads to from `leaf` at position `index`.
pub open spec fn path_root(leaf: Seq<u8>, path: Seq<Seq<u8>>, index: nat) -> Seq<u8> {
    fold_path(leaf, path, index, TREE_DEPTH as nat)
}

/// Climbing a correct sibling path from a leaf reaches the node above it.
pub proof fn lemma_fold_path(leaves: Seq<Digest>, i: nat, path: Seq<Seq<u8>>, h: nat)
    requires
        i < leaves.len(),
        h <= path.len(),
        forall|k: int| 0 <= k < h ==> #[trigger] path[k] == node(leaves, k as nat, sibling(level_floor(i, k as nat))),
    ensures
        fold_path(leaves[i as int]@, path, i, h) == node(leaves, h, level_floor(i, h)),
    decreases h,
{
    if h > 0 {
        let k = (h - 1) as nat;
        lemma_fold_path(leaves, i, path, k);
        assert(path[k as int] == node(leaves, k, sibling(level_floor(i, k))));
    }
}

/// Below `capacity(k)`, a position has reached 0 after `k` halvings.
pub proof fn lemma_floor_bound(n: nat, k: nat, h: nat)
    requires
        n < capacity(k),
        h <= k,
    ensures
        level_floor(n, h) < capacity((k - h) as nat),
    decreases h,
{
    if h > 0 {
        lemma_floor_bound(n, k, (h - 1) as nat);
    }
}

/// Every position below `MAX_LEAVES` is under the single node at the top.
pub proof fn lemma_floor_top(n: nat)
    requires
        n <= MAX_LEAVES,
    ensures
        level_floor(n, TREE_DEPTH as nat) == 0,
{
    reveal_with_fuel(capacity, 33);
    assert(capacity(32) == 4294967296);
    lemma_floor_bound(n, 32, 32);
}

/// The nodes of one level of the tree, from those of the level below.
fn next_level(layer: &Vec<Digest>, zero: &Digest, Ghost(leaves): Ghost<Seq<Digest>>, Ghost(h): Ghost<nat>) -> (r: Vec<Digest>)
    requires
        layer@.len() == level_len(leaves.len(), h),
        forall|k: int| 0 <= k < layer@.len() ==> #[trigger] layer@[k]@ == node(leaves, h, k as nat),
        zero@ == zero_hash(h),
    ensures
        r@.len() == level_len(leaves.len(), h + 1),
        forall|k: int| 0 <= k < r@.len() ==> #[trigger] r@[k]@ == node(leaves, h + 1, k as nat),
{
    let n = layer.len();
    let mut r: Vec<Digest> = Vec::new();
    let half = n / 2 + n % 2;
    let mut j: usize = 0;
    while j < half
        invariant
            n == layer@.len(),
            half == n / 2 + n % 2,
            r@.len() == j,
            j <= half,
            layer@.len() == level_len(leaves.len(), h),
            forall|k: int| 0 <= k < layer@.len() ==> #[trigger] layer@[k]@ == node(leaves, h, k as nat),
            zero@ == zero_hash(h),
            forall|k: int| 0 <= k < j ==> #[trigger] r@[k]@ == node(leaves, h + 1, k as nat),
        decreases half - j,
    {
        let left = layer[2 * j];
        let right = if 2 * j + 1 < n {
            layer[2 * j + 1]
        } else {
            proof {
                lemma_node_past_end(leaves, h, (2 * j + 1) as nat);
            }
            *zero
        };
        let parent = hash_concat(&left, &right);
        r.push(parent);
        j = j + 1;
    }
    assert(level_len(leaves.len(), h + 1) == (level_len(leaves.len(), h) + 1) / 2);
    r
}


/// A complete node does not change when a leaf is appended.
pub proof fn lemma_complete_node_stable(leaves: Seq<Digest>, x: Digest, h: nat, k: nat)
    requires
        k < level_floor(leaves.len(), h),
    ensures
        node(leaves.push(x), h, k) == node(leaves, h, k),
    decreases h,
{
    if h > 0 {
        lemma_complete_node_stable(leaves, x, (h - 1) as nat, 2 * k);
        lemma_complete_node_stable(leaves, x, (h - 1) as nat, 2 * k + 1);
    } else {
        assert(leaves.push(x)[k as int] == leaves[k as int]);
    }
}

/// Positions that meet at one height meet at every height above it.
pub proof fn lemma_floor_meet(a: nat, b: nat, h: nat, g: nat)
    requires
        h <= g,
        level_floor(a, h) == level_floor(b, h),
    ensures
        level_floor(a, g) == level_floor(b, g),
    decreases g - h,
{
    if h < g {
        lemma_floor_meet(a, b, h, (g - 1) as nat);
    }
}

/// A level holds at most one node more than its complete nodes.
pub proof fn lemma_len_floor(n: nat, h: nat)
    ensures
        level_len(n, h) <= level_floor(n, h) + 1,
        level_floor(n, h) <= level_len(n, h),
    decreases h,
{
    if h > 0 {
        lemma_len_floor(n, (h - 1) as nat);
    }
}

/// A leaf of the stream: a digest and its position.
#[derive(Clone, Copy, Debug)]
pub struct Leaf {
    pub index: u32,
    pub digest: Digest,
}

/// Errors of the accumulator; each one reports a caller's mistake.
#[derive(Clone, Copy, Debug, PartialEq, Eq, Structural)]
pub enum AccumulatorError {
    /// The leaf's index is not the next one.
    OutOfOrder { expected: u64, got: u32 },
    /// A proof was asked for a leaf that is not in the tree.
    IndexOutOfRange { index: u64, count: u64 },
    /// The tree already holds `MAX_LEAVES` leaves.
    TreeFull,
}

/// A membership proof: the leaf's position and its sibling path.
#[derive(Clone, Debug)]
pub struct Proof {
    pub index: u64,
    pub path: Vec<Digest>,
}

/// Whether `proof` shows that `leaf` is in the tree whose root is `root`.
pub open spec fn proof_holds(root: Seq<u8>, proof: Proof, leaf: Seq<u8>) -> bool {
    &&& proof.path@.len() == TREE_DEPTH
    &&& path_root(leaf, digests_view(proof.path@), proof.index as nat) == root
}

/// Recomputes the root from `leaf` and the proof's siblings and compares it
/// with `root`. Needs no accumulator.
pub fn verify(root: &Digest, proof: &Proof, leaf: &Digest) -> (r: bool)
    ensures
        r == proof_holds(root@, *proof, leaf@),
{
    if proof.path.len() != TREE_DEPTH {
        return false;
    }
    let ghost path = digests_view(proof.path@);
    let mut cur: Digest = *leaf;
    let mut idx: u64 = proof.index;
    let mut h: usize = 0;
    while h < TREE_DEPTH
        invariant
            h <= TREE_DEPTH,
            proof.path@.len() == TREE_DEPTH,
            path == digests_view(proof.path@),
            idx == level_floor(proof.index as nat, h as nat),
            cur@ == fold_path(leaf@, path, proof.index as nat, h as nat),
        decreases TREE_DEPTH - h,
    {
        let sib = proof.path[h];
        assert(path[h as int] == sib@);
        if idx % 2 == 1 {
            cur = hash_concat(&sib, &cur);
        } else {
            cur = hash_concat(&cur, &sib);
        }
        idx = idx / 2;
        h = h + 1;
    }
    digest_eq(&cur, root)
}

/// The append-only Merkle accumulator. It keeps every leaf, the frontier
/// (the last complete node of each level) and the root, which it updates on
/// each append in `TREE_DEPTH` hashes.
pub struct Accumulator {
    leaves: Vec<Digest>,
    branch: Vec<Digest>,
    zeros: Vec<Digest>,
    root: Digest,
}

impl View for Accumulator {
    type V = Seq<Digest>;

    closed spec fn view(&self) -> Seq<Digest> {
        self.leaves@
    }
}

impl Accumulator {
    /// The frontier, the zero nodes, the cached root and the bound agree
    /// with the leaves.
    pub closed spec fn wf(&self) -> bool {
        &&& self.leaves@.len() <= MAX_LEAVES
        &&& self.branch@.len() == TREE_DEPTH
        &&& self.zeros@.len() == TREE_DEPTH + 1
        &&& forall|h: int| 0 <= h <= TREE_DEPTH ==> #[trigger] self.zeros@[h]@ == zero_hash(h as nat)
        &&& forall|h: int| 0 <= h < TREE_DEPTH && level_floor(self.leaves@.len(), h as nat) % 2 == 1
            ==> #[trigger] self.branch@[h]@ == node(self.leaves@, h as nat, (level_floor(self.leaves@.len(), h as nat) - 1) as nat)
        &&& self.root@ == merkle_root(self.leaves@)
    }

    /// The root from the frontier: the node above the next free position at
    /// each height, completed by the frontier on its left or a zero node on
    /// its right.
    fn root_from_branch(leaves: &Vec<Digest>, branch: &Vec<Digest>, zeros: &Vec<Digest>) -> (r: Digest)
        requires
            leaves@.len() <= MAX_LEAVES,
            branch@.len() == TREE_DEPTH,
            zeros@.len() == TREE_DEPTH + 1,
            forall|h: int| 0 <= h <= TREE_DEPTH ==> #[trigger] zeros@[h]@ == zero_hash(h as nat),
            forall|h: int| 0 <= h < TREE_DEPTH && level_floor(leaves@.len(), h as nat) % 2 == 1
                ==> #[trigger] branch@[h]@ == node(leaves@, h as nat, (level_floor(leaves@.len(), h as nat) - 1) as nat),
        ensures
            r@ == merkle_root(leaves@),
    {
        let ghost n = leaves@.len();
        let mut cur: Digest = zeros[0];
        let mut size: u64 = leaves.len() as u64;
        let mut h: usize = 0;
        while h < TREE_DEPTH
            invariant
                h <= TREE_DEPTH,
                n == leaves@.len(),
                n <= MAX_LEAVES,
                branch@.len() == TREE_DEPTH,
                zeros@.len() == TREE_DEPTH + 1,
                forall|h: int| 0 <= h <= TREE_DEPTH ==> #[trigger] zeros@[h]@ == zero_hash(h as nat),
                forall|h: int| 0 <= h < TREE_DEPTH && level_floor(n, h as nat) % 2 == 1
                    ==> #[trigger] branch@[h]@ == node(leaves@, h as nat, (level_floor(n, h as nat) - 1) as nat),
                size == level_floor(n, h as nat),
                cur@ == node(leaves@, h as nat, size as nat),
            decreases TREE_DEPTH - h,
        {
            if size % 2 == 1 {
                let left = branch[h];
                cur = hash_concat(&left, &cur);
            } else {
                proof {
                    lemma_len_floor(n, h as nat);
                    lemma_node_past_end(leaves@, h as nat, (size + 1) as nat);
                }
                let z = zeros[h];
                cur = hash_concat(&cur, &z);
            }
            size = size / 2;
            h = h + 1;
        }
        proof {
            lemma_floor_top(n);
        }
        cur
    }

    /// An empty accumulator.
    pub fn new() -> (r: Accumulator)
        ensures
            r.wf(),
            r@ == Seq::<Digest>::empty(),
    {
        let zeros = zero_hashes();
        let leaves: Vec<Digest> = Vec::new();
        let mut branch: Vec<Digest> = Vec::new();
        let mut h: usize = 0;
        while h < TREE_DEPTH
            invariant
                h <= TREE_DEPTH,
                branch@.len() == h,
            decreases TREE_DEPTH - h,
        {
            branch.push([0u8; 32]);
            h = h + 1;
        }
        proof {
            assert forall|h: int| 0 <= h < TREE_DEPTH implies #[trigger] level_floor(0, h as nat) == 0 by {
                lemma_len_floor(0, h as nat);
                lemma_level_len_empty(h as nat);
            }
        }
        let root = Accumulator::root_from_branch(&leaves, &branch, &zeros);
        Accumulator { leaves, branch, zeros, root }
    }

    /// The number of leaves.
    pub fn count(&self) -> (r: u64)
        requires
            self.wf(),
        ensures
            r == self@.len(),
            r <= MAX_LEAVES,
    {
        self.leaves.len() as u64
    }

    /// Appends `leaf` at the next position. Fails with `TreeFull` when the
    /// tree holds `MAX_LEAVES` leaves, and with `OutOfOrder` when the leaf's
    /// index is not the current count; the accumulator is then unchanged.
    pub fn ingest(&mut self, leaf: Leaf) -> (r: Result<(), AccumulatorError>)
        requires
            old(self).wf(),
        ensures
            final(self).wf(),
            old(self)@.len() >= MAX_LEAVES ==> r == Err::<(), AccumulatorError>(AccumulatorError::TreeFull)
                && final(self)@ == old(self)@,
            old(self)@.len() < MAX_LEAVES && leaf.index != old(self)@.len() ==> r == Err::<(), AccumulatorError>(
                AccumulatorError::OutOfOrder { expected: old(self)@.len() as u64, got: leaf.index },
            ) && final(self)@ == old(self)@,
            old(self)@.len() < MAX_LEAVES && leaf.index == old(self)@.len() ==> r == Ok::<(), AccumulatorError>(())
                && final(self)@ == old(self)@.push(leaf.digest),
    {
        let n = self.leaves.len() as u64;
        if n >= MAX_LEAVES {
            return Err(AccumulatorError::TreeFull);
        }
        if leaf.index as u64 != n {
            return Err(AccumulatorError::OutOfOrder { expected: n, got: leaf.index });
        }
        let ghost before = self.leaves@;
        let ghost m = (n + 1) as nat;
        self.leaves.push(leaf.digest);
        let ghost after = self.leaves@;
        assert(after == before.push(leaf.digest));
        let mut cur: Digest = leaf.digest;
        let mut size: u64 = n + 1;
        let mut h: usize = 0;
        while h < TREE_DEPTH && size % 2 == 0
            invariant
                h <= TREE_DEPTH,
                self.leaves@ == after,
                before.len() == n,
                after == before.push(leaf.digest),
                m == n + 1,
                self.branch@.len() == TREE_DEPTH,
                self.zeros@.len() == TREE_DEPTH + 1,
                forall|h: int| 0 <= h <= TREE_DEPTH ==> #[trigger] self.zeros@[h]@ == zero_hash(h as nat),
                forall|h: int| 0 <= h < TREE_DEPTH && level_floor(n as nat, h as nat) % 2 == 1
                    ==> #[trigger] self.branch@[h]@ == node(before, h as nat, (level_floor(n as nat, h as nat) - 1) as nat),
                forall|k: int| 0 <= k < h ==> #[trigger] level_floor(m, k as nat) % 2 == 0,
                size >= 1,
                size == level_floor(m, h as nat),
                level_floor(n as nat, h as nat) == size - 1,
                cur@ == node(after, h as nat, (size - 1) as nat),
            decreases TREE_DEPTH - h,
        {
            let left = self.branch[h];
            proof {
                assert(level_floor(n as nat, h as nat) % 2 == 1);
                assert(left@ == node(before, h as nat, (size - 2) as nat));
                lemma_complete_node_stable(before, leaf.digest, h as nat, (size - 2) as nat);
                assert(left@ == node(after, h as nat, (size - 2) as nat));
                assert(2 * ((size / 2 - 1) as nat) == size - 2);
                assert(node(after, (h + 1) as nat, (size / 2 - 1) as nat) == hash_pair(
                    node(after, h as nat, (size - 2) as nat), node(after, h as nat, (size - 1) as nat)));
            }
            cur = hash_concat(&left, &cur);
            size = size / 2;
            h = h + 1;
        }
        if h < TREE_DEPTH {
            proof {
                assert(level_floor(n as nat, (h + 1) as nat) == level_floor(m, (h + 1) as nat));
                assert forall|k: int| h < k < TREE_DEPTH implies #[trigger] level_floor(n as nat, k as nat) == level_floor(m, k as nat) by {
                    lemma_floor_meet(n as nat, m, (h + 1) as nat, k as nat);
                }
                assert forall|k: int| h < k < TREE_DEPTH && level_floor(m, k as nat) % 2 == 1
                    implies node(before, k as nat, (level_floor(m, k as nat) - 1) as nat)
                        == #[trigger] node(after, k as nat, (level_floor(m, k as nat) - 1) as nat) by {
                    lemma_complete_node_stable(before, leaf.digest, k as nat, (level_floor(m, k as nat) - 1) as nat);
                }
            }
            self.branch.set(h, cur);
        }
        let ghost bh = h;
        assert forall|k: int| 0 <= k < TREE_DEPTH && level_floor(m, k as nat) % 2 == 1
            implies #[trigger] self.branch@[k]@ == node(after, k as nat, (level_floor(m, k as nat) - 1) as nat) by {
            if k > bh {
                assert(level_floor(n as nat, k as nat) == level_floor(m, k as nat));
                assert(node(before, k as nat, (level_floor(m, k as nat) - 1) as nat)
                    == node(after, k as nat, (level_floor(m, k as nat) - 1) as nat));
            }
        }
        self.root = Accumulator::root_from_branch(&self.leaves, &self.branch, &self.zeros);
        Ok(())
    }

    /// The sibling path of the leaf at `index`. Fails with
    /// `IndexOutOfRange` when there is no such leaf.
    pub fn prove(&self, index: u64) -> (r: Result<Proof, AccumulatorError>)
        requires
            self.wf(),
        ensures
            index >= self@.len() ==> r == Err::<Proof, AccumulatorError>(
                AccumulatorError::IndexOutOfRange { index, count: self@.len() as u64 },
            ),
            index < self@.len() ==> r is Ok && r->Ok_0.index == index
                && r->Ok_0.path@.len() == TREE_DEPTH
                && digests_view(r->Ok_0.path@) == proof_path(self@, index as nat),
    {
        let n = self.leaves.len() as u64;
        if index >= n {
            return Err(AccumulatorError::IndexOutOfRange { index, count: n });
        }
        let ghost leaves = self.leaves@;
        let mut layer: Vec<Digest> = Vec::new();
        let mut i: usize = 0;
        while i < self.leaves.len()
            invariant
                i <= leaves.len(),
                leaves == self.leaves@,
                layer@ == leaves.subrange(0, i as int),
            decreases leaves.len() - i,
        {
            layer.push(self.leaves[i]);
            i = i + 1;
        }
        assert(layer@ =~= leaves);
        let mut path: Vec<Digest> = Vec::new();
        let mut idx: u64 = index;
        let mut h: usize = 0;
        while h < TREE_DEPTH
            invariant
                h <= TREE_DEPTH,
                self.wf(),
                leaves == self.leaves@,
                index < leaves.len(),
                layer@.len() == level_len(leaves.len(), h as nat),
                forall|k: int| 0 <= k < layer@.len() ==> #[trigger] layer@[k]@ == node(leaves, h as nat, k as nat),
                idx == level_floor(index as nat, h as nat),
                idx <= index,
                path@.len() == h,
                forall|k: int| 0 <= k < h ==> #[trigger] path@[k]@ == node(leaves, k as nat, sibling(level_floor(index as nat, k as nat))),
            decreases TREE_DEPTH - h,
        {
            let sib: u64 = if idx % 2 == 0 { idx + 1 } else { idx - 1 };
            if sib < layer.len() as u64 {
                path.push(layer[sib as usize]);
            } else {
                proof {
                    lemma_node_past_end(leaves, h as nat, sib as nat);
                }
                path.push(self.zeros[h]);
            }
            layer = next_level(&layer, &self.zeros[h], Ghost(leaves), Ghost(h as nat));
            idx = idx / 2;
            h = h + 1;
        }
        assert(digests_view(path@) =~= proof_path(leaves, index as nat));
        Ok(Proof { index, path })
    }

    /// The root over the leaves so far.
    pub fn root(&self) -> (r: Digest)
        requires
            self.wf(),
        ensures
            r@ == merkle_root(self@),
    {
        self.root
    }
}

/// Every proof that `prove` gives for a leaf of the tree leads from that
/// leaf to the tree's root, so `verify` accepts it.
pub proof fn lemma_proof_verifies(leaves: Seq<Digest>, i: nat, proof: Proof)
    requires
        i < leaves.len(),
        leaves.len() <= MAX_LEAVES,
        proof.index == i,
        proof.path@.len() == TREE_DEPTH,
        digests_view(proof.path@) == proof_path(leaves, i),
    ensures
        proof_holds(merkle_root(leaves), proof, leaves[i as int]@),
{
    let path = digests_view(proof.path@);
    lemma_fold_path(leaves, i, path, TREE_DEPTH as nat);
    lemma_floor_top(i);
}

/// The root is a function of the leaves and their order alone: two
/// accumulators that were fed the same leaves in the same order have the
/// same root.
pub proof fn lemma_root_determined(a: &Accumulator, b: &Accumulator)
    requires
        a@ == b@,
    ensures
        merkle_root(a@) == merkle_root(b@),
{
}

/// An empty tree has no node on any level.
pub proof fn lemma_level_len_empty(h: nat)
    ensures
        level_len(0, h) == 0,
    decreases h,
{
    if h > 0 {
        lemma_level_len_empty((h - 1) as nat);
    }
}

} // verus!
