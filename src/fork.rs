use crate::store::{extends, hgt, parent, store_wf, Block};
use vstd::prelude::*;

verus! {

/// Adds `a` to the weight of a walk's outcome.
pub open spec fn shift(o: Option<(int, u64)>, a: int) -> Option<(int, u64)> {
    match o {
        Some((s, l)) => Some((s + a, l)),
        None => None,
    }
}

/// The fork-weight walk from `id` down to the finalized block `fin_id` at height `fin_h`:
/// the sum of the weights of the blocks walked over and the last of them (`last` if none),
/// or `None` when the chain meets height `fin_h` at another block, or reaches genesis while
/// something else is finalized.
pub open spec fn fork_walk(blocks: Seq<Block>, id: u64, fin_id: u64, fin_h: int, last: u64) -> Option<
    (int, u64),
>
    decreases id,
{
    if id == 0 {
        if fin_id == 0 {
            Some((0, last))
        } else {
            None
        }
    } else if id > blocks.len() {
        None
    } else {
        let b = blocks[id - 1];
        if b.height == fin_h {
            if id == fin_id {
                Some((0, last))
            } else {
                None
            }
        } else if b.previous_block_id >= id {
            None
        } else {
            shift(fork_walk(blocks, b.previous_block_id, fin_id, fin_h, id), b.weight as int)
        }
    }
}

/// The weight a validator attaches to a head: the fork walk from the head to its finalized block.
pub open spec fn fork_weight(blocks: Seq<Block>, head: u64, fin_id: u64) -> Option<(int, u64)> {
    fork_walk(blocks, head, fin_id, hgt(blocks, fin_id), head)
}

/// A walk that succeeds either stops at once (with no weight and `last` as its candidate) or
/// ends on a stored child of the finalized block, no higher than where it started.
pub proof fn lemma_walk_shape(blocks: Seq<Block>, id: u64, fin_id: u64, last: u64)
    requires
        store_wf(blocks),
        id <= blocks.len(),
        fin_id <= blocks.len(),
        fork_walk(blocks, id, fin_id, hgt(blocks, fin_id), last) is Some,
    ensures
        ({
            let (s, l) = fork_walk(blocks, id, fin_id, hgt(blocks, fin_id), last)->0;
            &&& s >= 0
            &&& (l == last && s == 0 && id == fin_id) || (1 <= l <= blocks.len() && hgt(blocks, l)
                == hgt(blocks, fin_id) + 1 && hgt(blocks, l) <= hgt(blocks, id) && parent(blocks, l)
                == fin_id)
        }),
    decreases id,
{
    let fh = hgt(blocks, fin_id);
    if id != 0 {
        let b = blocks[id - 1];
        if b.height != fh {
            let p = b.previous_block_id;
            lemma_walk_shape(blocks, p, fin_id, id);
            if p == 0 {
                assert(fin_id == 0);
            }
        }
    }
}

/// After a successful walk that passed over at least one block, moving the finalized block up
/// to the walk's candidate leaves a successful walk, lighter by the candidate's weight.
pub proof fn lemma_walk_refinalize(blocks: Seq<Block>, id: u64, fin_id: u64, last: u64)
    requires
        store_wf(blocks),
        1 <= id <= blocks.len(),
        fin_id <= blocks.len(),
        hgt(blocks, id) != hgt(blocks, fin_id),
        fork_walk(blocks, id, fin_id, hgt(blocks, fin_id), last) is Some,
    ensures
        ({
            let (s, l) = fork_walk(blocks, id, fin_id, hgt(blocks, fin_id), last)->0;
            &&& 1 <= l <= blocks.len()
            &&& hgt(blocks, l) == hgt(blocks, fin_id) + 1
            &&& fork_walk(blocks, id, l, hgt(blocks, l), last) is Some
            &&& (fork_walk(blocks, id, l, hgt(blocks, l), last)->0).0 == s - blocks[l - 1].weight
        }),
    decreases id,
{
    let fh = hgt(blocks, fin_id);
    let b = blocks[id - 1];
    let p = b.previous_block_id;
    lemma_walk_shape(blocks, id, fin_id, last);
    if p == 0 || hgt(blocks, p) == fh {
        if p == 0 {
            assert(fin_id == 0);
        }
    } else {
        lemma_walk_refinalize(blocks, p, fin_id, id);
        lemma_walk_shape(blocks, p, fin_id, id);
        let l = (fork_walk(blocks, p, fin_id, fh, id)->0).1;
        assert(hgt(blocks, id) == hgt(blocks, p) + 1);
        assert(hgt(blocks, l) <= hgt(blocks, p));
    }
}

/// A walk from a stored block does not change when the store grows.
pub proof fn lemma_walk_extends(
    old: Seq<Block>,
    new: Seq<Block>,
    id: u64,
    fin_id: u64,
    fin_h: int,
    last: u64,
)
    requires
        extends(old, new),
        id <= old.len(),
    ensures
        fork_walk(new, id, fin_id, fin_h, last) == fork_walk(old, id, fin_id, fin_h, last),
    decreases id,
{
    if id != 0 {
        assert(new[id - 1] == old[id - 1]);
        let p = old[id - 1].previous_block_id;
        if p < id {
            lemma_walk_extends(old, new, p, fin_id, fin_h, id);
        }
    }
}

/// Walks from `head` down to the finalized block, summing weights (see `fork_walk`).
pub fn compute_fork_weight(blocks: &Vec<Block>, head: u64, fin_id: u64, fin_h: u64) -> (r: Option<
    (u128, u64),
>)
    requires
        store_wf(blocks@),
        head <= blocks@.len(),
    ensures
        match r {
            Some((w, l)) => fork_walk(blocks@, head, fin_id, fin_h as int, head) == Some((w as int, l)),
            None => fork_walk(blocks@, head, fin_id, fin_h as int, head) is None,
        },
{
    let mut sum: u128 = 0;
    let mut cur: u64 = head;
    let mut last: u64 = head;
    loop
        invariant
            store_wf(blocks@),
            cur <= head <= blocks@.len(),
            fork_walk(blocks@, head, fin_id, fin_h as int, head) == shift(
                fork_walk(blocks@, cur, fin_id, fin_h as int, last),
                sum as int,
            ),
            sum <= (head - cur) * 0xFFFF_FFFF_FFFF_FFFFu128,
        decreases cur,
    {
        if cur == 0 {
            if fin_id == 0 {
                return Some((sum, last));
            } else {
                return None;
            }
        }
        let n: usize = blocks.len();
        assert(cur - 1 < n);
        let idx: usize = (cur - 1) as usize;
        let b = blocks[idx];
        assert(b == blocks@[cur - 1]);
        if b.height == fin_h {
            if cur == fin_id {
                return Some((sum, last));
            } else {
                return None;
            }
        }
        assert(b.previous_block_id < cur);
        proof {
            let steps = (head - cur) as int;
            assert(sum + b.weight <= (steps + 1) * 0xFFFF_FFFF_FFFF_FFFFu128) by (nonlinear_arith)
                requires
                    sum <= steps * 0xFFFF_FFFF_FFFF_FFFFu128,
                    b.weight <= 0xFFFF_FFFF_FFFF_FFFFu64,
            ;
            assert((steps + 1) * 0xFFFF_FFFF_FFFF_FFFFu128 <= (head - b.previous_block_id)
                * 0xFFFF_FFFF_FFFF_FFFFu128) by (nonlinear_arith)
                requires
                    steps + 1 <= head - b.previous_block_id,
            ;
            assert((head - b.previous_block_id) * 0xFFFF_FFFF_FFFF_FFFFu128 <= 0xFFFF_FFFF_FFFF_FFFFu128
                * 0xFFFF_FFFF_FFFF_FFFFu128) by (nonlinear_arith)
                requires
                    head - b.previous_block_id <= 0xFFFF_FFFF_FFFF_FFFFu128,
            ;
        }
        assert(fork_walk(blocks@, cur, fin_id, fin_h as int, last) == shift(
            fork_walk(blocks@, b.previous_block_id, fin_id, fin_h as int, cur),
            b.weight as int,
        ));
        sum = sum + b.weight as u128;
        last = cur;
        cur = b.previous_block_id;
    }
}

} // verus!
