use vstd::prelude::*;

verus! {

/// A block, stored under its identifier (identifiers start at 1; 0 is the genesis sentinel).
#[derive(Clone, Copy, Debug, PartialEq, Eq, Structural)]
pub struct Block {
    pub height: u64,
    pub previous_block_id: u64,
    pub validator_id: usize,
    /// The block's weight, a fraction of 2^32.
    pub weight: u64,
    /// Tick at which the block was created.
    pub time: u64,
}

/// Height of block `id` (the genesis sentinel, and an unknown id, have height 0).
pub open spec fn hgt(blocks: Seq<Block>, id: u64) -> int {
    if id == 0 || id > blocks.len() {
        0
    } else {
        blocks[id - 1].height as int
    }
}

/// Parent of block `id` (the genesis sentinel is its own parent).
pub open spec fn parent(blocks: Seq<Block>, id: u64) -> u64 {
    if id == 0 || id > blocks.len() {
        0
    } else {
        blocks[id - 1].previous_block_id
    }
}

/// The block store: block `i + 1` sits at index `i`; each block's parent has a smaller id, and
/// each block is one above its parent. There is room for three more ids.
pub open spec fn store_wf(blocks: Seq<Block>) -> bool {
    &&& blocks.len() + 3 <= u64::MAX
    &&& forall|i: int|
        0 <= i < blocks.len() ==> {
            &&& (#[trigger] blocks[i]).previous_block_id <= i
            &&& blocks[i].height == hgt(blocks, blocks[i].previous_block_id) + 1
            &&& blocks[i].height <= i + 1
        }
}

/// The id reached from `id` after following `k` parent links.
pub open spec fn ancestor(blocks: Seq<Block>, id: u64, k: nat) -> u64
    decreases k,
{
    if k == 0 {
        id
    } else {
        ancestor(blocks, parent(blocks, id), (k - 1) as nat)
    }
}

/// `new` holds every block of `old`, unchanged, and maybe more after them.
pub open spec fn extends(old: Seq<Block>, new: Seq<Block>) -> bool {
    old.len() <= new.len() && forall|i: int| 0 <= i < old.len() ==> new[i] == old[i]
}

/// Acyclicity: every parent link points to a smaller id, and following the links from any
/// block reaches the genesis sentinel after exactly as many steps as the block's height.
pub proof fn lemma_ancestry_reaches_genesis(blocks: Seq<Block>, id: u64)
    requires
        store_wf(blocks),
        id <= blocks.len(),
    ensures
        id != 0 ==> parent(blocks, id) < id,
        ancestor(blocks, id, hgt(blocks, id) as nat) == 0,
    decreases id,
{
    if id != 0 {
        let b = blocks[id - 1];
        assert(b.previous_block_id <= id - 1);
        lemma_ancestry_reaches_genesis(blocks, b.previous_block_id);
        assert(hgt(blocks, id) == hgt(blocks, b.previous_block_id) + 1);
    }
}

/// Heights of blocks already stored do not change when the store grows.
pub proof fn lemma_extends_keeps_heights(old: Seq<Block>, new: Seq<Block>, id: u64)
    requires
        extends(old, new),
        id <= old.len(),
    ensures
        hgt(new, id) == hgt(old, id),
        parent(new, id) == parent(old, id),
{
    if id != 0 {
        assert(new[id - 1] == old[id - 1]);
    }
}

/// Following parent links from a stored block does not change when the store grows.
pub proof fn lemma_ancestor_extends(old: Seq<Block>, new: Seq<Block>, id: u64, k: nat)
    requires
        store_wf(old),
        extends(old, new),
        id <= old.len(),
    ensures
        ancestor(new, id, k) == ancestor(old, id, k),
    decreases k,
{
    if k > 0 {
        lemma_extends_keeps_heights(old, new, id);
        if id != 0 {
            assert(old[id - 1].previous_block_id <= id - 1);
        }
        lemma_ancestor_extends(old, new, parent(old, id), (k - 1) as nat);
    }
}

/// Adding a block on top of a stored parent keeps the store well formed.
pub proof fn lemma_push_keeps_wf(blocks: Seq<Block>, b: Block)
    requires
        store_wf(blocks),
        blocks.len() + 4 <= u64::MAX,
        b.previous_block_id <= blocks.len(),
        b.height == hgt(blocks, b.previous_block_id) + 1,
    ensures
        store_wf(blocks.push(b)),
        extends(blocks, blocks.push(b)),
{
    let nb = blocks.push(b);
    assert(extends(blocks, nb));
    assert forall|i: int| 0 <= i < nb.len() implies {
        &&& (#[trigger] nb[i]).previous_block_id <= i
        &&& nb[i].height == hgt(nb, nb[i].previous_block_id) + 1
        &&& nb[i].height <= i + 1
    } by {
        lemma_extends_keeps_heights(blocks, nb, nb[i].previous_block_id);
        if i < blocks.len() {
            assert(nb[i] == blocks[i]);
        } else {
            let p = b.previous_block_id;
            if p != 0 {
                assert(blocks[p - 1].height <= p);
            }
        }
    }
}

} // verus!
