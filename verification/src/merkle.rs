//! Binary hash tree over the chunk hashes of one file.
//!
//! A level is a list of 32-byte hashes. The level above pairs its nodes from
//! the left and hashes each pair's concatenation; a node left without a
//! partner is paired with itself. Levels are built until one node is left.

use vstd::prelude::*;
use crate::chunk::{ChunkInfo, sha256, hash_bytes, chunk_hash_views, chunks_of, chunk_views};

verus! {

/// One node of the tree.
#[derive(Debug, Clone, Copy)]
pub struct MerkleNode {
    pub hash: [u8; 32],
}

/// The leaves of a file's tree and the levels above them, lowest first.
#[derive(Debug, Clone)]
pub struct MerkleTree {
    pub leaves: Vec<MerkleNode>,
    pub upper: Vec<Vec<MerkleNode>>,
}

/// The mathematical content of a [`MerkleTree`]: hashes only.
pub struct MerkleTreeView {
    pub leaves: Seq<Seq<u8>>,
    pub upper: Seq<Seq<Seq<u8>>>,
}

/// The hashes of a list of nodes, in order.
pub open spec fn node_hashes(nodes: Seq<MerkleNode>) -> Seq<Seq<u8>> {
    Seq::new(nodes.len(), |i: int| nodes[i].hash@)
}

/// The hashes of a list of levels, in order.
pub open spec fn level_hashes(levels: Seq<Vec<MerkleNode>>) -> Seq<Seq<Seq<u8>>> {
    Seq::new(levels.len(), |i: int| node_hashes(levels[i]@))
}

impl View for MerkleTree {
    type V = MerkleTreeView;

    open spec fn view(&self) -> MerkleTreeView {
        MerkleTreeView { leaves: node_hashes(self.leaves@), upper: level_hashes(self.upper@) }
    }
}

/// Thirty-two zero bytes: the root of the tree of an empty file.
pub open spec fn zero_hash() -> Seq<u8> {
    Seq::new(32, |i: int| 0u8)
}

/// Hash of an inner node with children `left` and `right`.
pub open spec fn pair_hash(left: Seq<u8>, right: Seq<u8>) -> Seq<u8> {
    sha256(left + right)
}

/// Node `i` of the level above `level`.
pub open spec fn parent_hash(level: Seq<Seq<u8>>, i: int) -> Seq<u8> {
    if 2 * i + 1 < level.len() {
        pair_hash(level[2 * i], level[2 * i + 1])
    } else {
        pair_hash(level[2 * i], level[2 * i])
    }
}

/// The level above `level`.
pub open spec fn next_level(level: Seq<Seq<u8>>) -> Seq<Seq<u8>> {
    Seq::new(((level.len() + 1) / 2) as nat, |i: int| parent_hash(level, i))
}

/// All levels above `level`, lowest first; none where `level` has at most
/// one node.
pub open spec fn upper_levels(level: Seq<Seq<u8>>) -> Seq<Seq<Seq<u8>>>
    decreases level.len(),
{
    if level.len() <= 1 {
        Seq::empty()
    } else {
        seq![next_level(level)] + upper_levels(next_level(level))
    }
}

/// The root over `leaves`: zero for no leaf, the leaf itself for one, and
/// the root over the level above otherwise.
pub open spec fn merkle_root(leaves: Seq<Seq<u8>>) -> Seq<u8>
    decreases leaves.len(),
{
    if leaves.len() == 0 {
        zero_hash()
    } else if leaves.len() == 1 {
        leaves[0]
    } else {
        merkle_root(next_level(leaves))
    }
}

/// The chunk hashes of a file with contents `data`, in index order.
pub open spec fn file_hashes(data: Seq<u8>) -> Seq<Seq<u8>> {
    Seq::new(chunks_of(data).len(), |i: int| chunks_of(data)[i].hash)
}

/// The root of the tree of a file with contents `data`.
pub open spec fn file_root(data: Seq<u8>) -> Seq<u8> {
    merkle_root(file_hashes(data))
}

/// The hashes of a file's chunk list are the file's chunk hashes.
pub proof fn lemma_file_hashes(data: Seq<u8>, chunks: Seq<ChunkInfo>)
    requires
        chunk_views(chunks) == chunks_of(data),
    ensures
        chunk_hash_views(chunks) == file_hashes(data),
{
    assert(chunk_hash_views(chunks) =~= file_hashes(data)) by {
        assert forall|i: int| 0 <= i < chunks.len() implies chunk_hash_views(chunks)[i]
            == file_hashes(data)[i] by {
            assert(chunk_views(chunks)[i] == chunks[i]@);
        }
    }
}

/// What [`root_hash`] reads off a tree, well-formed or not: zero without
/// leaves, the first leaf without upper levels, else the first node of the
/// topmost level.
pub open spec fn top_hash(tree: MerkleTreeView) -> Seq<u8> {
    if tree.leaves.len() == 0 {
        zero_hash()
    } else if tree.upper.len() == 0 {
        tree.leaves[0]
    } else {
        tree.upper.last()[0]
    }
}

impl MerkleTree {
    /// The upper levels are exactly those that the leaves determine.
    pub open spec fn wf(&self) -> bool {
        self@.upper == upper_levels(self@.leaves)
    }

    /// Reading the root cannot run out of bounds: a tree with leaves and
    /// upper levels has a node in its topmost level.
    pub open spec fn has_top(&self) -> bool {
        self@.leaves.len() > 0 && self@.upper.len() > 0 ==> self@.upper.last().len() > 0
    }
}

/// Whether two hashes hold the same bytes.
pub fn hash_eq(a: &[u8; 32], b: &[u8; 32]) -> (same: bool)
    ensures
        same == (a@ == b@),
{
    let mut i: usize = 0;
    while i < 32
        invariant
            i <= 32,
            forall|j: int| 0 <= j < i ==> a@[j] == b@[j],
        decreases 32 - i,
    {
        if a[i] != b[i] {
            return false;
        }
        i = i + 1;
    }
    assert(a@ =~= b@);
    true
}

/// Hash of an inner node: SHA-256 of `a` followed by `b`.
pub fn hash_pair(a: [u8; 32], b: [u8; 32]) -> (out: [u8; 32])
    ensures
        out@ == pair_hash(a@, b@),
{
    let mut buf: Vec<u8> = Vec::with_capacity(64);
    let mut i: usize = 0;
    while i < 32
        invariant
            i <= 32,
            buf@ == a@.subrange(0, i as int),
        decreases 32 - i,
    {
        buf.push(a[i]);
        i = i + 1;
        assert(buf@ =~= a@.subrange(0, i as int));
    }
    assert(buf@ =~= a@);
    let mut j: usize = 0;
    while j < 32
        invariant
            j <= 32,
            buf@ == a@ + b@.subrange(0, j as int),
        decreases 32 - j,
    {
        buf.push(b[j]);
        j = j + 1;
        assert(buf@ =~= a@ + b@.subrange(0, j as int));
    }
    assert(buf@ =~= a@ + b@);
    hash_bytes(buf.as_slice())
}

/// Computes the level above `level`.
fn build_next_level(level: &Vec<MerkleNode>) -> (next: Vec<MerkleNode>)
    ensures
        node_hashes(next@) == next_level(node_hashes(level@)),
{
    let n: usize = level.len();
    let count: usize = n / 2 + n % 2;
    let mut next: Vec<MerkleNode> = Vec::new();
    let mut i: usize = 0;
    while i < count
        invariant
            n == level@.len(),
            count == (n + 1) / 2,
            i <= count,
            next@.len() == i,
            forall|k: int| 0 <= k < i ==> (#[trigger] next@[k]).hash@ == parent_hash(node_hashes(level@), k),
        decreases count - i,
    {
        let left = level[2 * i].hash;
        let h = if 2 * i + 1 < n {
            hash_pair(left, level[2 * i + 1].hash)
        } else {
            hash_pair(left, left)
        };
        next.push(MerkleNode { hash: h });
        i = i + 1;
    }
    assert(node_hashes(next@) =~= next_level(node_hashes(level@)));
    next
}

/// Builds the tree over the hashes of `chunks`.
///
/// The leaves are the chunk hashes in order. Above them stands one level per
/// halving, each the pairwise hash of the one below with an odd last node
/// paired with itself, up to the level that holds a single node. No chunk or
/// one chunk gives no upper level.
pub fn build_merkle(chunks: &[ChunkInfo]) -> (tree: MerkleTree)
    ensures
        tree@.leaves == chunk_hash_views(chunks@),
        tree@.upper == upper_levels(tree@.leaves),
        tree.wf(),
        tree.has_top(),
{
    let mut leaves: Vec<MerkleNode> = Vec::new();
    let mut i: usize = 0;
    while i < chunks.len()
        invariant
            i <= chunks@.len(),
            leaves@.len() == i,
            forall|k: int| 0 <= k < i ==> (#[trigger] leaves@[k]).hash@ == chunks@[k].hash@,
        decreases chunks@.len() - i,
    {
        leaves.push(MerkleNode { hash: chunks[i].hash });
        i = i + 1;
    }
    assert(node_hashes(leaves@) =~= chunk_hash_views(chunks@));
    let mut upper: Vec<Vec<MerkleNode>> = Vec::new();
    let mut width: usize = leaves.len();
    let ghost mut top: Seq<Seq<u8>> = node_hashes(leaves@);
    while width > 1
        invariant
            width == top.len(),
            upper@.len() == 0 ==> top == node_hashes(leaves@),
            upper@.len() > 0 ==> top == node_hashes(upper@.last()@),
            upper_levels(node_hashes(leaves@)) == level_hashes(upper@) + upper_levels(top),
            leaves@.len() > 0 ==> width > 0,
        decreases width,
    {
        let next = if upper.len() == 0 {
            build_next_level(&leaves)
        } else {
            build_next_level(&upper[upper.len() - 1])
        };
        proof {
            let grown = upper@.push(next);
            assert(level_hashes(grown) =~= level_hashes(upper@) + seq![next_level(top)]);
            assert(upper_levels(top) == seq![next_level(top)] + upper_levels(next_level(top)));
            assert(level_hashes(grown) + upper_levels(next_level(top)) =~= level_hashes(upper@)
                + upper_levels(top));
            top = next_level(top);
        }
        width = next.len();
        upper.push(next);
    }
    assert(upper_levels(top) =~= Seq::<Seq<Seq<u8>>>::empty());
    assert(level_hashes(upper@) + upper_levels(top) =~= level_hashes(upper@));
    let tree = MerkleTree { leaves, upper };
    assert(tree@.upper.len() > 0 ==> tree@.upper.last() == top);
    tree
}

/// The root of `tree`: thirty-two zero bytes for a tree without leaves, the
/// only leaf of a tree without upper levels, else the first node of the
/// topmost level. Of a well-formed tree this is the Merkle root over its
/// leaves.
pub fn root_hash(tree: &MerkleTree) -> (out: [u8; 32])
    requires
        tree.has_top(),
    ensures
        out@ == top_hash(tree@),
        tree.wf() ==> out@ == merkle_root(tree@.leaves),
{
    proof {
        if tree.wf() {
            lemma_top_is_root(tree@.leaves);
        }
    }
    if tree.leaves.len() == 0 {
        let zero = [0u8; 32];
        assert(zero@ =~= zero_hash());
        zero
    } else if tree.upper.len() == 0 {
        tree.leaves[0].hash
    } else {
        let last = &tree.upper[tree.upper.len() - 1];
        last[0].hash
    }
}

/// The root of the tree over the hashes of `chunks`.
pub fn merkle_root_from_chunks(chunks: &[ChunkInfo]) -> (out: [u8; 32])
    ensures
        out@ == merkle_root(chunk_hash_views(chunks@)),
{
    let tree = build_merkle(chunks);
    root_hash(&tree)
}

/// The chunk indices at which two trees differ, ascending. Trees with
/// different leaf counts differ at every leaf of `b`.
pub fn diff_chunks(a: &MerkleTree, b: &MerkleTree) -> (diffs: Vec<u64>)
    ensures
        diffs@ == indices_where(b@.leaves.len(), |i: nat| leaf_differs(a@.leaves, b@.leaves, i)),
{
    let n: usize = b.leaves.len();
    let same_len: bool = a.leaves.len() == n;
    let ghost pick = |i: nat| leaf_differs(a@.leaves, b@.leaves, i);
    let mut diffs: Vec<u64> = Vec::new();
    let mut i: usize = 0;
    while i < n
        invariant
            n == b.leaves@.len(),
            same_len == (a.leaves@.len() == n),
            i <= n,
            pick == |i: nat| leaf_differs(a@.leaves, b@.leaves, i),
            diffs@ == indices_where(i as nat, pick),
        decreases n - i,
    {
        let differs: bool = if same_len {
            !hash_eq(&a.leaves[i].hash, &b.leaves[i].hash)
        } else {
            true
        };
        assert(differs == pick(i as nat));
        if differs {
            diffs.push(i as u64);
        }
        i = i + 1;
    }
    diffs
}

/// Whether leaf `i` of `b` has no equal counterpart in `a`, a list of
/// another length having none at all.
pub open spec fn leaf_differs(a: Seq<Seq<u8>>, b: Seq<Seq<u8>>, i: nat) -> bool {
    a.len() != b.len() || a[i as int] != b[i as int]
}

/// The indices below `n` that `pick` holds of, ascending.
pub open spec fn indices_where(n: nat, pick: spec_fn(nat) -> bool) -> Seq<u64>
    decreases n,
{
    if n == 0 {
        Seq::empty()
    } else if pick((n - 1) as nat) {
        indices_where((n - 1) as nat, pick).push((n - 1) as u64)
    } else {
        indices_where((n - 1) as nat, pick)
    }
}

/// `indices_where(n, pick)` lists exactly the indices below `n` that `pick`
/// holds of, each once and in strictly ascending order.
pub proof fn lemma_indices_where(n: nat, pick: spec_fn(nat) -> bool)
    requires
        n <= u64::MAX,
    ensures
        indices_where(n, pick).len() <= n,
        forall|k: int|
            0 <= k < indices_where(n, pick).len() ==> (#[trigger] indices_where(n, pick)[k]) < n
                && pick(indices_where(n, pick)[k] as nat),
        forall|j: int, k: int|
            0 <= j < k < indices_where(n, pick).len() ==> indices_where(n, pick)[j]
                < indices_where(n, pick)[k],
        forall|i: u64| indices_where(n, pick).contains(i) <==> (i < n && pick(i as nat)),
    decreases n,
{
    if n > 0 {
        let m = (n - 1) as nat;
        lemma_indices_where(m, pick);
        let prev = indices_where(m, pick);
        let cur = indices_where(n, pick);
        assert forall|i: u64| cur.contains(i) <==> (i < n && pick(i as nat)) by {
            if pick(m) {
                if cur.contains(i) {
                    let k = choose|k: int| 0 <= k < cur.len() && cur[k] == i;
                    if k < prev.len() {
                        assert(prev[k] == i);
                        assert(prev.contains(i));
                    }
                }
                if i < n && pick(i as nat) {
                    if i == m {
                        assert(cur[prev.len() as int] == i);
                    } else {
                        assert(prev.contains(i));
                        let k = choose|k: int| 0 <= k < prev.len() && prev[k] == i;
                        assert(cur[k] == i);
                    }
                }
            } else {
                if i < n && pick(i as nat) {
                    assert(i != m);
                }
            }
        }
    }
}

/// In a well-formed tree the hash that [`top_hash`] reads is the Merkle root
/// over the leaves.
pub proof fn lemma_top_is_root(leaves: Seq<Seq<u8>>)
    ensures
        top_hash(MerkleTreeView { leaves, upper: upper_levels(leaves) }) == merkle_root(leaves),
        leaves.len() > 1 ==> upper_levels(leaves).len() > 0 && upper_levels(leaves).last().len()
            == 1,
    decreases leaves.len(),
{
    if leaves.len() > 1 {
        let next = next_level(leaves);
        lemma_top_is_root(next);
        let rest = upper_levels(next);
        let all = upper_levels(leaves);
        assert(all == seq![next] + rest);
        if next.len() == 1 {
            assert(rest =~= Seq::<Seq<Seq<u8>>>::empty());
            assert(all.last() == next);
        } else {
            assert(all.last() == rest.last());
        }
    }
}

/// The root depends on the file's bytes alone: whatever chunk lists and
/// trees are built for the same contents, the root read from them is the
/// same, namely [`file_root`] of the contents.
pub proof fn lemma_root_depends_only_on_bytes(
    data: Seq<u8>,
    chunks: Seq<ChunkInfo>,
    tree: MerkleTree,
)
    requires
        chunk_views(chunks) == chunks_of(data),
        tree@.leaves == chunk_hash_views(chunks),
        tree.wf(),
    ensures
        top_hash(tree@) == file_root(data),
{
    lemma_top_is_root(tree@.leaves);
    lemma_file_hashes(data, chunks);
}

} // verus!
