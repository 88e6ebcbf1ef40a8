use crate::event::{is_earliest, pop_earliest, Event, TimedEvent};
use crate::fork::{
    compute_fork_weight, fork_weight, lemma_walk_extends, lemma_walk_refinalize,
    lemma_walk_shape,
};
use crate::store::{
    ancestor, parent, extends, hgt, lemma_ancestor_extends, lemma_extends_keeps_heights, lemma_push_keeps_wf, store_wf, Block,
};
use crate::weight::{vdf_delay, vdf_delay_spec, WEIGHT_ONE};
use std::collections::BTreeMap;
use vstd::prelude::*;

verus! {

broadcast use vstd::std_specs::btree::group_btree_axioms, vstd::laws_cmp::group_laws_cmp;

/// Parameters of a run.
#[derive(Clone, Copy, Debug)]
pub struct Config {
    /// Number of validators.
    pub validators_count: usize,
    /// How far apart the validators' stakes are.
    pub stake_spread_factor: u64,
    /// VDF ticks per block of depth.
    pub vdf_block_ticks: u64,
    /// Most ticks a VDF can take on top of its depth, for a weight of zero.
    pub vdf_max_weight_ticks: u64,
    /// Ticks a block takes to reach the other validators.
    pub latency_ticks: u64,
    /// Ticks after which a VDF that finished too early is applied again.
    pub vdf_apply_retry_ticks: u64,
    /// Fork weight (in whole weights) above which the lowest block of the fork is finalized.
    pub finalization_weight: u64,
    /// Height from which validators start no more VDFs.
    pub stop_height: u64,
    /// Number of steps after which a run stops, if any.
    pub step_stop: Option<u64>,
}

/// A validator's view of the chain.
pub struct Validator {
    /// Share of the stake, a fraction of 2^32.
    pub power: u64,
    /// The validator never moves to a fork without this block.
    pub finalized_block_id: u64,
    /// Head of the fork the validator follows.
    pub current_head_id: u64,
    /// Weight of that fork above the finalized block, in units of 2^-32.
    pub current_fork_weight: u128,
    /// Weight drawn by each finished VDF, by the block it was rooted at.
    pub finished_vdf: BTreeMap<u64, u64>,
    /// Height of the last block this validator created.
    pub latest_created_height: u64,
}

impl Validator {
    /// A validator of the given power that has seen nothing yet.
    pub fn from_power(power: u64) -> (r: Validator)
        ensures
            r.power == power,
            r.finalized_block_id == 0,
            r.current_head_id == 0,
            r.current_fork_weight == 0,
            r.finished_vdf@ == Map::<u64, u64>::empty(),
            r.latest_created_height == 0,
    {
        Validator {
            power,
            finalized_block_id: 0,
            current_head_id: 0,
            current_fork_weight: 0,
            finished_vdf: BTreeMap::new(),
            latest_created_height: 0,
        }
    }
}

/// A validator's pointers lead into the store, its fork weight is the exact sum of the
/// weights of the blocks above its finalized block up to its head, and its finalized block is
/// the one the finalized index holds for that height.
pub open spec fn validator_wf(v: Validator, blocks: Seq<Block>, index: Map<u64, u64>) -> bool {
    &&& v.finalized_block_id <= blocks.len()
    &&& v.current_head_id <= blocks.len()
    &&& match fork_weight(blocks, v.current_head_id, v.finalized_block_id) {
        Some((s, _)) => s == v.current_fork_weight as int,
        None => false,
    }
    &&& v.finalized_block_id != 0 ==> {
        &&& index.contains_key(hgt(blocks, v.finalized_block_id) as u64)
        &&& index[hgt(blocks, v.finalized_block_id) as u64] == v.finalized_block_id
    }
}

/// Every height of `old` keeps its block in `new`.
pub open spec fn index_grows(old: Map<u64, u64>, new: Map<u64, u64>) -> bool {
    forall|h: u64| #[trigger] old.contains_key(h) ==> new.contains_key(h) && new[h] == old[h]
}

/// `new` holds the validators of `old` with the same chain pointers and finished VDFs.
pub open spec fn same_views(old: Seq<Validator>, new: Seq<Validator>) -> bool {
    &&& old.len() == new.len()
    &&& forall|u: int|
        0 <= u < old.len() ==> {
            &&& (#[trigger] new[u]).finalized_block_id == old[u].finalized_block_id
            &&& new[u].current_head_id == old[u].current_head_id
            &&& new[u].current_fork_weight == old[u].current_fork_weight
            &&& new[u].finished_vdf@ == old[u].finished_vdf@
            &&& new[u].power == old[u].power
        }
}

/// No validator's finalized block is lower in `new` than in `old`.
pub open spec fn finality_monotone(
    old_blocks: Seq<Block>,
    old: Seq<Validator>,
    new_blocks: Seq<Block>,
    new: Seq<Validator>,
) -> bool {
    &&& old.len() == new.len()
    &&& forall|u: int|
        0 <= u < old.len() ==> hgt(old_blocks, old[u].finalized_block_id) <= hgt(
            new_blocks,
            (#[trigger] new[u]).finalized_block_id,
        )
}

/// The events that announce block `id`, made by `creator` at `time`, to `n` validators.
pub open spec fn gossip(n: nat, id: u64, creator: usize, time: u64, latency: u64) -> Seq<TimedEvent> {
    Seq::new(
        n,
        |i: int|
            TimedEvent {
                time: if i == creator {
                    time
                } else {
                    crate::weight::sat(time + latency) as u64
                },
                validator_id: i as usize,
                event: Event::BlockReceived { block_id: id },
            },
    )
}

/// The whole state of a run.
pub struct Simulation {
    pub config: Config,
    /// Pending events, applied in order of time.
    pub event_pool: Vec<TimedEvent>,
    pub validators: Vec<Validator>,
    /// `weights[v][h]` is the weight validator `v` draws for a block at height `h`.
    pub weights: Vec<Vec<u64>>,
    /// Block `i + 1` sits at index `i`.
    pub blocks: Vec<Block>,
    /// Block finalized at each height, by the first validator that finalized it.
    pub finalized_blocks: BTreeMap<u64, u64>,
    /// `(height, block id)` of each entry of `finalized_blocks`, in the order they were made.
    pub finalized_log: Vec<(u64, u64)>,
    /// Set when two validators finalized different blocks at one height.
    pub stop: bool,
}

/// The weight `v` draws for height `h` (zero where the table has none).
pub open spec fn table_weight(weights: Seq<Vec<u64>>, v: usize, h: u64) -> u64 {
    if v < weights.len() && h < weights[v as int]@.len() {
        weights[v as int]@[h as int]
    } else {
        0
    }
}

/// The end of the VDF that `v` starts at `time`, rooted at `input`, for a block at `out_h`.
pub open spec fn vdf_event(sim: Simulation, time: u64, input: u64, out_h: u64, v: usize) -> TimedEvent {
    let w = table_weight(sim.weights@, v, out_h);
    TimedEvent {
        time: crate::weight::sat(
            time + vdf_delay_spec(
                w,
                input,
                out_h,
                sim.config.vdf_block_ticks,
                sim.config.vdf_max_weight_ticks,
            ),
        ) as u64,
        validator_id: v,
        event: Event::VdfFinished { input_block_id: input, output_block_height: out_h, weight: w },
    }
}

/// A finished VDF rooted at `input` can only be applied once the validator's head is a child
/// of `input`; while `input` is still the head it is premature (genesis VDFs excepted).
pub open spec fn vdf_premature(head: u64, input: u64, out_h: u64) -> bool {
    head == input && !(input == 0 && (out_h == 1 || out_h == 2))
}

/// The block on top of which a finished VDF builds, if it can be applied now: genesis itself
/// for a height-1 genesis VDF, otherwise the head when the head is a child of the VDF's root.
pub open spec fn vdf_parent(blocks: Seq<Block>, head: u64, input: u64, out_h: u64) -> Option<u64> {
    if input == 0 && out_h == 1 {
        Some(0)
    } else if input == 0 && out_h == 2 {
        if head != 0 && parent(blocks, head) == 0 {
            Some(head)
        } else {
            None
        }
    } else if head == input {
        None
    } else if head != 0 && parent(blocks, head) == input {
        Some(head)
    } else {
        None
    }
}

/// The finalized index holds heights `1..=n` for a log of `n` entries, and entry `i` of the
/// log is height `i + 1` with the index's block there: each entry once, by increasing height.
pub open spec fn index_log_wf(index: Map<u64, u64>, log: Seq<(u64, u64)>) -> bool {
    &&& forall|i: int|
        0 <= i < log.len() ==> (#[trigger] log[i]).0 == i + 1 && index.contains_key(log[i].0)
            && index[log[i].0] == log[i].1
    &&& forall|h: u64| #[trigger] index.contains_key(h) ==> 1 <= h <= log.len()
}

/// The fork weight, in units of 2^-32, above which a validator finalizes.
pub open spec fn finalization_threshold(c: Config) -> int {
    c.finalization_weight * WEIGHT_ONE
}

/// Finalization from `fin` on the fork of `head`: while the fork weighs more than `thr`, its
/// lowest block is finalized and recorded in the index at its height, unless the index holds
/// another block there, which stops everything. Returns the last finalized block, the index,
/// and whether it stopped on such a divergence.
#[verifier::opaque]
pub open spec fn fin_steps(blocks: Seq<Block>, index: Map<u64, u64>, head: u64, fin: u64, thr: int) -> (
    u64,
    Map<u64, u64>,
    bool,
)
    decreases hgt(blocks, head) - hgt(blocks, fin),
{
    match fork_weight(blocks, head, fin) {
        Some((w, c)) => {
            if w > thr && hgt(blocks, fin) < hgt(blocks, c) <= hgt(blocks, head) {
                let h = hgt(blocks, c) as u64;
                if index.contains_key(h) && index[h] != c {
                    (fin, index, true)
                } else {
                    fin_steps(blocks, index.insert(h, c), head, c, thr)
                }
            } else {
                (fin, index, false)
            }
        },
        None => (fin, index, false),
    }
}

/// `new` holds the same validators as `old`, field by field, except maybe validator `v`.
pub open spec fn others_same(old: Seq<Validator>, new: Seq<Validator>, v: int) -> bool {
    &&& old.len() == new.len()
    &&& forall|u: int|
        0 <= u < old.len() && u != v ==> {
            &&& (#[trigger] new[u]).finalized_block_id == old[u].finalized_block_id
            &&& new[u].current_head_id == old[u].current_head_id
            &&& new[u].current_fork_weight == old[u].current_fork_weight
            &&& new[u].finished_vdf@ == old[u].finished_vdf@
            &&& new[u].power == old[u].power
            &&& new[u].latest_created_height == old[u].latest_created_height
        }
}

/// What building on the new head `block_id` of `v` does, the pool being `pool0` before: if a
/// VDF finished on the head's parent and `v` has not yet created a block that high, the block
/// is appended and announced; otherwise nothing changes.
pub open spec fn build_post(
    old: Simulation,
    pool0: Seq<TimedEvent>,
    new: Simulation,
    time: u64,
    v: usize,
    block_id: u64,
) -> bool {
    let ov = old.validators@[v as int];
    let p = parent(old.blocks@, block_id);
    let height = hgt(old.blocks@, block_id) + 1;
    if ov.finished_vdf@.contains_key(p) && height > ov.latest_created_height && old.blocks@.len()
        + 4 <= u64::MAX {
        &&& new.blocks@ == old.blocks@.push(
            Block {
                height: height as u64,
                previous_block_id: block_id,
                validator_id: v,
                weight: ov.finished_vdf@[p],
                time,
            },
        )
        &&& new.event_pool@ == pool0 + gossip(
            old.validators@.len(),
            (old.blocks@.len() + 1) as u64,
            v,
            time,
            old.config.latency_ticks,
        )
        &&& new.validators@[v as int].latest_created_height == height
    } else {
        &&& new.blocks@ == old.blocks@
        &&& new.event_pool@ == pool0
        &&& new.validators@[v as int].latest_created_height == ov.latest_created_height
    }
}

/// What adopting `block_id` as the head of `v` does, the pool being `pool0` before: the
/// finalization of `fin_steps` (the index, the finalized block, `stop` on a divergence; the old
/// finalized block stays an ancestor of the new one), then the block of `build_post`.
pub open spec fn adoption_post(
    old: Simulation,
    pool0: Seq<TimedEvent>,
    new: Simulation,
    time: u64,
    v: usize,
    block_id: u64,
) -> bool {
    let vi = v as int;
    let ov = old.validators@[vi];
    let r = fin_steps(
        old.blocks@,
        old.finalized_blocks@,
        block_id,
        ov.finalized_block_id,
        finalization_threshold(old.config),
    );
    let f = r.0;
    &&& new.config == old.config
    &&& new.weights@ == old.weights@
    &&& new.finalized_blocks@ == r.1
    &&& new.stop == (old.stop || r.2)
    &&& others_same(old.validators@, new.validators@, vi)
    &&& new.validators@[vi].current_head_id == block_id
    &&& new.validators@[vi].finalized_block_id == f
    &&& new.validators@[vi].finished_vdf@ == ov.finished_vdf@
    &&& new.validators@[vi].power == ov.power
    &&& fork_weight(new.blocks@, block_id, f) matches Some((w, _)) && w
        == new.validators@[vi].current_fork_weight
    &&& hgt(old.blocks@, ov.finalized_block_id) <= hgt(old.blocks@, f)
    &&& ancestor(old.blocks@, f, (hgt(old.blocks@, f) - hgt(old.blocks@, ov.finalized_block_id)) as nat)
        == ov.finalized_block_id
    &&& ancestor(new.blocks@, f, (hgt(new.blocks@, f) - hgt(new.blocks@, ov.finalized_block_id)) as nat)
        == ov.finalized_block_id
    &&& build_post(old, pool0, new, time, v, block_id)
}

/// One step of `fin_steps`: a divergence at the candidate's height stops it; otherwise it
/// goes on from the candidate with the candidate recorded.
proof fn lemma_fin_step(blocks: Seq<Block>, index: Map<u64, u64>, head: u64, fin: u64, thr: int, w: int, c: u64)
    requires
        fork_weight(blocks, head, fin) == Some((w, c)),
        w > thr,
        hgt(blocks, fin) < hgt(blocks, c) <= hgt(blocks, head),
    ensures
        ({
            let h = hgt(blocks, c) as u64;
            if index.contains_key(h) && index[h] != c {
                fin_steps(blocks, index, head, fin, thr) == (fin, index, true)
            } else {
                fin_steps(blocks, index, head, fin, thr) == fin_steps(blocks, index.insert(h, c), head, c, thr)
            }
        }),
{
    reveal(fin_steps);
}

/// `fin_steps` stops at once on a fork no heavier than the threshold.
proof fn lemma_fin_done(blocks: Seq<Block>, index: Map<u64, u64>, head: u64, fin: u64, thr: int, w: int, c: u64)
    requires
        fork_weight(blocks, head, fin) == Some((w, c)),
        w <= thr,
    ensures
        fin_steps(blocks, index, head, fin, thr) == (fin, index, false),
{
    reveal(fin_steps);
}

/// A height missing from the index, one above a validator's finalized block, is the next one.
proof fn lemma_next_height(sim: Simulation, v: int, h: u64)
    requires
        sim.wf(),
        0 <= v < sim.validators@.len(),
        h == hgt(sim.blocks@, sim.validators@[v].finalized_block_id) + 1,
        !sim.finalized_blocks@.contains_key(h),
    ensures
        h == sim.finalized_log@.len() + 1,
{
    let f = sim.validators@[v].finalized_block_id;
    assert(validator_wf(sim.validators@[v], sim.blocks@, sim.finalized_blocks@));
    let n = sim.finalized_log@.len();
    if h <= n {
        let e = sim.finalized_log@[h - 1];
        assert(e.0 == h);
    }
    if f != 0 {
        assert(sim.finalized_blocks@.contains_key((h - 1) as u64));
    } else {
        assert(h == 1);
    }
}

/// Safety: two validators whose finalized blocks stand at the same height have finalized the
/// same block. Together with `index_grows`, which every step ensures, no height's finalized
/// block is ever replaced.
pub proof fn lemma_finalized_agree(sim: Simulation, u: int, v: int)
    requires
        sim.wf(),
        0 <= u < sim.validators@.len(),
        0 <= v < sim.validators@.len(),
        sim.validators@[u].finalized_block_id != 0,
        sim.validators@[v].finalized_block_id != 0,
        hgt(sim.blocks@, sim.validators@[u].finalized_block_id) == hgt(
            sim.blocks@,
            sim.validators@[v].finalized_block_id,
        ),
    ensures
        sim.validators@[u].finalized_block_id == sim.validators@[v].finalized_block_id,
{
    assert(validator_wf(sim.validators@[u], sim.blocks@, sim.finalized_blocks@));
    assert(validator_wf(sim.validators@[v], sim.blocks@, sim.finalized_blocks@));
}

/// In every state of a run, each validator's fork weight is not negative and is exactly the
/// sum of the weights of the blocks strictly above its finalized block, up to and including
/// its head.
pub proof fn lemma_fork_weight_exact(sim: Simulation, v: int)
    requires
        sim.wf(),
        0 <= v < sim.validators@.len(),
    ensures
        fork_weight(
            sim.blocks@,
            sim.validators@[v].current_head_id,
            sim.validators@[v].finalized_block_id,
        ) matches Some((s, _)) && s == sim.validators@[v].current_fork_weight as int && s >= 0,
{
    assert(validator_wf(sim.validators@[v], sim.blocks@, sim.finalized_blocks@));
}

/// One finalization step of validator `v` (its finalized block moved one height up, to the
/// block the index holds there, with the fork weight recomputed) keeps the invariant, and no
/// validator's finalized block moves down.
proof fn lemma_finalize_step(s0: Simulation, before: Simulation, after: Simulation, v: int)
    requires
        before.wf(),
        0 <= v < before.validators@.len(),
        after.blocks@ == before.blocks@,
        index_grows(before.finalized_blocks@, after.finalized_blocks@),
        index_log_wf(after.finalized_blocks@, after.finalized_log@),
        after.validators@.len() == before.validators@.len(),
        forall|u: int|
            0 <= u < before.validators@.len() && u != v ==> #[trigger] after.validators@[u]
                == before.validators@[u],
        after.validators@[v].current_head_id == before.validators@[v].current_head_id,
        ({
            let f = after.validators@[v].finalized_block_id;
            &&& 1 <= f <= after.blocks@.len()
            &&& hgt(after.blocks@, f) == hgt(after.blocks@, before.validators@[v].finalized_block_id) + 1
            &&& after.finalized_blocks@.contains_key(hgt(after.blocks@, f) as u64)
            &&& after.finalized_blocks@[hgt(after.blocks@, f) as u64] == f
            &&& fork_weight(after.blocks@, after.validators@[v].current_head_id, f) matches Some((w, _))
                && w == after.validators@[v].current_fork_weight as int
        }),
        finality_monotone(s0.blocks@, s0.validators@, before.blocks@, before.validators@),
    ensures
        after.wf(),
        finality_monotone(s0.blocks@, s0.validators@, after.blocks@, after.validators@),
{
    assert forall|u: int| 0 <= u < after.validators@.len() implies validator_wf(
        #[trigger] after.validators@[u],
        after.blocks@,
        after.finalized_blocks@,
    ) by {
        assert(validator_wf(before.validators@[u], before.blocks@, before.finalized_blocks@));
    }
    assert forall|u: int| 0 <= u < s0.validators@.len() implies hgt(
        s0.blocks@,
        s0.validators@[u].finalized_block_id,
    ) <= hgt(after.blocks@, (#[trigger] after.validators@[u]).finalized_block_id) by {
        assert(hgt(s0.blocks@, s0.validators@[u].finalized_block_id) <= hgt(
            before.blocks@,
            before.validators@[u].finalized_block_id,
        ));
    }
}

/// Progress from `a` to `b` and from `b` to `c` is progress from `a` to `c`.
proof fn lemma_chain_progress(a: Simulation, b: Simulation, c: Simulation)
    requires
        extends(a.blocks@, b.blocks@),
        extends(b.blocks@, c.blocks@),
        index_grows(a.finalized_blocks@, b.finalized_blocks@),
        index_grows(b.finalized_blocks@, c.finalized_blocks@),
        finality_monotone(a.blocks@, a.validators@, b.blocks@, b.validators@),
        finality_monotone(b.blocks@, b.validators@, c.blocks@, c.validators@),
    ensures
        extends(a.blocks@, c.blocks@),
        index_grows(a.finalized_blocks@, c.finalized_blocks@),
        finality_monotone(a.blocks@, a.validators@, c.blocks@, c.validators@),
{
    assert forall|u: int| 0 <= u < a.validators@.len() implies hgt(
        a.blocks@,
        a.validators@[u].finalized_block_id,
    ) <= hgt(c.blocks@, (#[trigger] c.validators@[u]).finalized_block_id) by {
        assert(hgt(a.blocks@, a.validators@[u].finalized_block_id) <= hgt(
            b.blocks@,
            b.validators@[u].finalized_block_id,
        ));
    }
}

/// The start signal for each of `n` validators, at tick 0.
pub open spec fn start_signals(n: nat) -> Seq<TimedEvent> {
    Seq::new(
        n,
        |i: int|
            TimedEvent { time: 0, validator_id: i as usize, event: Event::BlockReceived { block_id: 0 } },
    )
}

/// What applying the arrival of block `block_id` at `validator_id` at `time` does (see
/// `Simulation::process_event_block_received`), beyond keeping the invariant.
pub open spec fn block_received_post(
    old: Simulation,
    new: Simulation,
    time: u64,
    validator_id: usize,
    block_id: u64,
) -> bool {
    let v = validator_id as int;
    if validator_id >= old.validators@.len() || block_id > old.blocks@.len() {
        new.same_but_pool(old) && new.event_pool@ == old.event_pool@
    } else if block_id == 0 {
        &&& new.same_but_pool(old)
        &&& new.event_pool@ == old.event_pool@.push(vdf_event(old, time, 0, 1, validator_id)).push(
            vdf_event(old, time, 0, 2, validator_id),
        )
    } else {
        match fork_weight(old.blocks@, block_id, old.validators@[v].finalized_block_id) {
            None => new.same_but_pool(old) && new.event_pool@ == old.event_pool@,
            Some((w, _)) => {
                let h = hgt(old.blocks@, block_id);
                let started = if h < old.config.stop_height {
                    old.event_pool@.push(vdf_event(old, time, block_id, (h + 2) as u64, validator_id))
                } else {
                    old.event_pool@
                };
                if w <= old.validators@[v].current_fork_weight {
                    new.same_but_pool(old) && new.event_pool@ == started
                } else {
                    adoption_post(old, started, new, time, validator_id, block_id)
                }
            },
        }
    }
}

/// What applying the end of a VDF does to the blocks and the pool (see
/// `Simulation::process_event_vdf_finished`), beyond keeping the invariant.
pub open spec fn vdf_finished_post(
    old: Simulation,
    new: Simulation,
    time: u64,
    validator_id: usize,
    input_block_id: u64,
    output_block_height: u64,
    weight: u64,
) -> bool {
    &&& new.config == old.config
    &&& new.weights@ == old.weights@
    &&& new.finalized_blocks@ == old.finalized_blocks@
    &&& new.stop == old.stop
    &&& new.validators@.len() == old.validators@.len()
    &&& forall|u: int|
        0 <= u < old.validators@.len() ==> {
            &&& (#[trigger] new.validators@[u]).finalized_block_id == old.validators@[u].finalized_block_id
            &&& new.validators@[u].current_head_id == old.validators@[u].current_head_id
            &&& new.validators@[u].current_fork_weight == old.validators@[u].current_fork_weight
            &&& new.validators@[u].power == old.validators@[u].power
            &&& new.validators@[u].finished_vdf@ == if u == validator_id {
                old.validators@[u].finished_vdf@.insert(input_block_id, weight)
            } else {
                old.validators@[u].finished_vdf@
            }
            &&& new.validators@[u].latest_created_height == if u == validator_id
                && new.blocks@.len() > old.blocks@.len() {
                new.blocks@.last().height
            } else {
                old.validators@[u].latest_created_height
            }
        }
    &&& validator_id >= old.validators@.len() ==> new.blocks@ == old.blocks@
        && new.event_pool@ == old.event_pool@
    &&& validator_id < old.validators@.len() ==> {
        let head = old.validators@[validator_id as int].current_head_id;
        if vdf_premature(head, input_block_id, output_block_height) {
            &&& new.blocks@ == old.blocks@
            &&& new.event_pool@ == old.event_pool@.push(
                TimedEvent {
                    time: crate::weight::sat(time + old.config.vdf_apply_retry_ticks) as u64,
                    validator_id,
                    event: Event::VdfFinished {
                        input_block_id,
                        output_block_height,
                        weight,
                    },
                },
            )
        } else {
            match vdf_parent(old.blocks@, head, input_block_id, output_block_height) {
                None => new.blocks@ == old.blocks@ && new.event_pool@ == old.event_pool@,
                Some(p) => {
                    let height = hgt(old.blocks@, p) + 1;
                    let fresh = height > old.validators@[validator_id as int].latest_created_height
                        && old.blocks@.len() + 4 <= u64::MAX;
                    if fresh {
                        &&& new.blocks@ == old.blocks@.push(
                            Block { height: height as u64, previous_block_id: p, validator_id, weight, time },
                        )
                        &&& new.event_pool@ == old.event_pool@ + gossip(
                            old.validators@.len(),
                            (old.blocks@.len() + 1) as u64,
                            validator_id,
                            time,
                            old.config.latency_ticks,
                        )
                    } else {
                        new.blocks@ == old.blocks@ && new.event_pool@ == old.event_pool@
                    }
                },
            }
        }
    }
}

/// What applying event `e` to `old` does, beyond keeping the invariant.
pub open spec fn event_post(old: Simulation, new: Simulation, e: TimedEvent) -> bool {
    match e.event {
        Event::BlockReceived { block_id } => block_received_post(
            old,
            new,
            e.time,
            e.validator_id,
            block_id,
        ),
        Event::VdfFinished { input_block_id, output_block_height, weight } => vdf_finished_post(
            old,
            new,
            e.time,
            e.validator_id,
            input_block_id,
            output_block_height,
            weight,
        ),
    }
}

/// `new` is `old` with events appended, none of them scheduled before tick `t`.
pub open spec fn appended_from(old: Seq<TimedEvent>, new: Seq<TimedEvent>, t: u64) -> bool {
    &&& old.len() <= new.len()
    &&& new.subrange(0, old.len() as int) == old
    &&& forall|i: int| old.len() <= i < new.len() ==> (#[trigger] new[i]).time >= t
}

proof fn lemma_appended_refl(a: Seq<TimedEvent>, t: u64)
    ensures
        appended_from(a, a, t),
{
    assert(a.subrange(0, a.len() as int) =~= a);
}

proof fn lemma_appended_push(a: Seq<TimedEvent>, e: TimedEvent, t: u64)
    requires
        e.time >= t,
    ensures
        appended_from(a, a.push(e), t),
{
    assert(a.push(e).subrange(0, a.len() as int) =~= a);
}

proof fn lemma_appended_gossip(a: Seq<TimedEvent>, n: nat, id: u64, creator: usize, t: u64, latency: u64)
    ensures
        appended_from(a, a + gossip(n, id, creator, t, latency), t),
{
    let b = a + gossip(n, id, creator, t, latency);
    assert(b.subrange(0, a.len() as int) =~= a);
    assert forall|i: int| a.len() <= i < b.len() implies (#[trigger] b[i]).time >= t by {
        assert(b[i] == gossip(n, id, creator, t, latency)[i - a.len()]);
    }
}

proof fn lemma_appended_trans(a: Seq<TimedEvent>, b: Seq<TimedEvent>, c: Seq<TimedEvent>, t: u64)
    requires
        appended_from(a, b, t),
        appended_from(b, c, t),
    ensures
        appended_from(a, c, t),
{
    assert(c.subrange(0, a.len() as int) =~= b.subrange(0, a.len() as int));
    assert forall|i: int| a.len() <= i < c.len() implies (#[trigger] c[i]).time >= t by {
        if i < b.len() {
            assert(c[i] == b[i]);
        }
    }
}

/// An applied event only appends events to the pool, none scheduled before the event itself.
proof fn lemma_event_post_appends(old: Simulation, new: Simulation, e: TimedEvent)
    requires
        event_post(old, new, e),
    ensures
        appended_from(old.event_pool@, new.event_pool@, e.time),
{
    let t = e.time;
    let pool = old.event_pool@;
    lemma_appended_refl(pool, t);
    match e.event {
        Event::BlockReceived { block_id } => {
            let v = e.validator_id;
            if v >= old.validators@.len() || block_id > old.blocks@.len() {
            } else if block_id == 0 {
                let e1 = vdf_event(old, t, 0, 1, v);
                let e2 = vdf_event(old, t, 0, 2, v);
                lemma_appended_push(pool, e1, t);
                lemma_appended_push(pool.push(e1), e2, t);
                lemma_appended_trans(pool, pool.push(e1), pool.push(e1).push(e2), t);
            } else {
                match fork_weight(old.blocks@, block_id, old.validators@[v as int].finalized_block_id) {
                    None => {},
                    Some((w, _)) => {
                        let h = hgt(old.blocks@, block_id);
                        let started = if h < old.config.stop_height {
                            pool.push(vdf_event(old, t, block_id, (h + 2) as u64, v))
                        } else {
                            pool
                        };
                        if h < old.config.stop_height {
                            lemma_appended_push(pool, vdf_event(old, t, block_id, (h + 2) as u64, v), t);
                        }
                        lemma_appended_refl(started, t);
                        lemma_appended_gossip(
                            started,
                            old.validators@.len(),
                            (old.blocks@.len() + 1) as u64,
                            v,
                            t,
                            old.config.latency_ticks,
                        );
                        if w > old.validators@[v as int].current_fork_weight {
                            lemma_appended_trans(pool, started, new.event_pool@, t);
                        }
                    },
                }
            }
        },
        Event::VdfFinished { input_block_id, output_block_height, weight } => {
            let v = e.validator_id;
            if v < old.validators@.len() {
                let head = old.validators@[v as int].current_head_id;
                if vdf_premature(head, input_block_id, output_block_height) {
                    lemma_appended_push(
                        pool,
                        TimedEvent {
                            time: crate::weight::sat(t + old.config.vdf_apply_retry_ticks) as u64,
                            validator_id: v,
                            event: Event::VdfFinished { input_block_id, output_block_height, weight },
                        },
                        t,
                    );
                } else {
                    lemma_appended_gossip(
                        pool,
                        old.validators@.len(),
                        (old.blocks@.len() + 1) as u64,
                        v,
                        t,
                        old.config.latency_ticks,
                    );
                }
            }
        },
    }
}

/// Two states agree on every field (each validator field by field, maps by their contents).
pub open spec fn same_state(a: Simulation, b: Simulation) -> bool {
    &&& a.config == b.config
    &&& a.weights@ == b.weights@
    &&& a.blocks@ == b.blocks@
    &&& a.event_pool@ == b.event_pool@
    &&& a.finalized_blocks@ == b.finalized_blocks@
    &&& a.finalized_log@ == b.finalized_log@
    &&& a.stop == b.stop
    &&& same_views(a.validators@, b.validators@)
    &&& forall|u: int|
        0 <= u < a.validators@.len() ==> (#[trigger] a.validators@[u]).latest_created_height
            == b.validators@[u].latest_created_height
}

/// The log is determined by the index it describes.
proof fn lemma_log_determined(index: Map<u64, u64>, l1: Seq<(u64, u64)>, l2: Seq<(u64, u64)>)
    requires
        index_log_wf(index, l1),
        index_log_wf(index, l2),
    ensures
        l1 == l2,
{
    if l1.len() < l2.len() {
        let e = l2[l1.len() as int];
        assert(index.contains_key(e.0));
    } else if l2.len() < l1.len() {
        let e = l1[l2.len() as int];
        assert(index.contains_key(e.0));
    }
    assert forall|i: int| 0 <= i < l1.len() implies l1[i] == l2[i] by {
        assert(l1[i].0 == i + 1);
        assert(l2[i].0 == i + 1);
    }
    assert(l1 =~= l2);
}

/// Determinism: applying the same event to states that agree on every field gives states
/// that agree on every field, whatever the run that did it.
pub proof fn lemma_event_deterministic(old1: Simulation, old2: Simulation, n1: Simulation, n2: Simulation, e: TimedEvent)
    requires
        same_state(old1, old2),
        n1.wf(),
        n2.wf(),
        event_post(old1, n1, e),
        event_post(old2, n2, e),
    ensures
        same_state(n1, n2),
{
    let old = old1;
    lemma_log_determined(n1.finalized_blocks@, n1.finalized_log@, n2.finalized_log@);
    match e.event {
        Event::BlockReceived { block_id } => {
            let v = e.validator_id as int;
            if e.validator_id < old.validators@.len() && 1 <= block_id <= old.blocks@.len() {
                match fork_weight(old.blocks@, block_id, old.validators@[v].finalized_block_id) {
                    Some((w, _)) => {
                        if w > old.validators@[v].current_fork_weight {
                            assert(validator_wf(n1.validators@[v], n1.blocks@, n1.finalized_blocks@));
                            assert(validator_wf(n2.validators@[v], n2.blocks@, n2.finalized_blocks@));
                        }
                    },
                    None => {},
                }
            }
        },
        Event::VdfFinished { .. } => {},
    }
}

/// Index `i` holds the earliest event of the pool, and no event before it is as early.
pub open spec fn first_earliest(pool: Seq<TimedEvent>, i: int) -> bool {
    &&& 0 <= i < pool.len()
    &&& is_earliest(pool, pool[i])
    &&& forall|j: int| 0 <= j < i ==> pool[i].time < #[trigger] pool[j].time
}

/// One step of a run from `a` to `b`: the first earliest pending event is taken out of the
/// pool and applied (see `event_post`).
#[verifier::opaque]
pub open spec fn next_step(a: Simulation, b: Simulation) -> bool {
    exists|i: int, mid: Simulation|
        #![trigger a.event_pool@.remove(i), mid.event_pool@]
        first_earliest(a.event_pool@, i) && mid.same_but_pool(a) && mid.event_pool@
            == a.event_pool@.remove(i) && event_post(mid, b, a.event_pool@[i]) && b.wf()
}

/// Only one index holds the first earliest event.
proof fn lemma_first_earliest_unique(pool: Seq<TimedEvent>, i: int, j: int)
    requires
        first_earliest(pool, i),
        first_earliest(pool, j),
    ensures
        i == j,
{
    if i < j {
        assert(pool[j].time <= pool[i].time);
    } else if j < i {
        assert(pool[i].time <= pool[j].time);
    }
}

/// Determinism of a run: from states that agree on every field, one step leads to states
/// that agree on every field.
pub proof fn lemma_next_step_deterministic(a1: Simulation, a2: Simulation, b1: Simulation, b2: Simulation)
    requires
        same_state(a1, a2),
        next_step(a1, b1),
        next_step(a2, b2),
    ensures
        same_state(b1, b2),
{
    reveal(next_step);
    let (i1, m1) = choose|i: int, mid: Simulation|
        #![trigger a1.event_pool@.remove(i), mid.event_pool@]
        first_earliest(a1.event_pool@, i) && mid.same_but_pool(a1) && mid.event_pool@
            == a1.event_pool@.remove(i) && event_post(mid, b1, a1.event_pool@[i]) && b1.wf();
    let (i2, m2) = choose|i: int, mid: Simulation|
        #![trigger a2.event_pool@.remove(i), mid.event_pool@]
        first_earliest(a2.event_pool@, i) && mid.same_but_pool(a2) && mid.event_pool@
            == a2.event_pool@.remove(i) && event_post(mid, b2, a2.event_pool@[i]) && b2.wf();
    lemma_first_earliest_unique(a1.event_pool@, i1, i2);
    assert(same_state(m1, m2));
    lemma_event_deterministic(m1, m2, b1, b2, a1.event_pool@[i1]);
}

/// Determinism of a run: two runs from states that agree on every field pass through states
/// that agree on every field, step by step.
pub proof fn lemma_traces_agree(t1: Seq<Simulation>, t2: Seq<Simulation>, n: int)
    requires
        0 <= n < t1.len(),
        n < t2.len(),
        same_state(t1[0], t2[0]),
        forall|k: int| #![trigger t1[k]] 0 <= k < n ==> next_step(t1[k], t1[k + 1]),
        forall|k: int| #![trigger t2[k]] 0 <= k < n ==> next_step(t2[k], t2[k + 1]),
    ensures
        same_state(t1[n], t2[n]),
    decreases n,
{
    if n > 0 {
        lemma_traces_agree(t1, t2, n - 1);
        assert(next_step(t1[n - 1], t1[n]));
        assert(next_step(t2[n - 1], t2[n]));
        lemma_next_step_deterministic(t1[n - 1], t2[n - 1], t1[n], t2[n]);
    }
}

impl Simulation {
    /// The invariant of a run.
    pub open spec fn wf(self) -> bool {
        &&& store_wf(self.blocks@)
        &&& index_log_wf(self.finalized_blocks@, self.finalized_log@)
        &&& forall|v: int|
            0 <= v < self.validators@.len() ==> validator_wf(
                #[trigger] self.validators@[v],
                self.blocks@,
                self.finalized_blocks@,
            )
    }

    /// Everything but the event pool is as in `old`.
    pub open spec fn same_but_pool(self, old: Simulation) -> bool {
        &&& self.config == old.config
        &&& self.weights@ == old.weights@
        &&& self.blocks@ == old.blocks@
        &&& self.finalized_blocks@ == old.finalized_blocks@
        &&& self.finalized_log@ == old.finalized_log@
        &&& self.stop == old.stop
        &&& same_views(old.validators@, self.validators@)
        &&& forall|u: int|
            0 <= u < old.validators@.len() ==> (#[trigger] self.validators@[u]).latest_created_height
                == old.validators@[u].latest_created_height
    }

    /// Height of block `id`.
    pub fn block_height(&self, id: u64) -> (r: u64)
        requires
            store_wf(self.blocks@),
            id <= self.blocks@.len(),
        ensures
            r == hgt(self.blocks@, id),
    {
        if id == 0 {
            0
        } else {
            let n: usize = self.blocks.len();
            assert(id - 1 < n);
            self.blocks[(id - 1) as usize].height
        }
    }

    /// Id the next block will get.
    pub fn next_free_block_id(&self) -> (r: u64)
        requires
            store_wf(self.blocks@),
        ensures
            r == self.blocks@.len() + 1,
    {
        self.blocks.len() as u64 + 1
    }

    /// Creates a block of `validator_id` on top of `previous_block_id`, unless the validator
    /// already created a block at that height or above, or the store has no id left; the new
    /// block is announced to every validator, at once to its creator and after the latency to
    /// the others.
    pub fn create_block(&mut self, time: u64, validator_id: usize, previous_block_id: u64, weight: u64)
        requires
            old(self).wf(),
            validator_id < old(self).validators@.len(),
            previous_block_id <= old(self).blocks@.len(),
        ensures
            final(self).wf(),
            final(self).config == old(self).config,
            final(self).weights@ == old(self).weights@,
            final(self).finalized_blocks@ == old(self).finalized_blocks@,
            final(self).finalized_log@ == old(self).finalized_log@,
            final(self).stop == old(self).stop,
            same_views(old(self).validators@, final(self).validators@),
            extends(old(self).blocks@, final(self).blocks@),
            ({
                let height = hgt(old(self).blocks@, previous_block_id) + 1;
                let created = height > old(self).validators@[validator_id as int].latest_created_height
                    && old(self).blocks@.len() + 4 <= u64::MAX;
                let b = Block { height: height as u64, previous_block_id, validator_id, weight, time };
                if created {
                    &&& final(self).blocks@ == old(self).blocks@.push(b)
                    &&& final(self).event_pool@ == old(self).event_pool@ + gossip(
                        old(self).validators@.len(),
                        (old(self).blocks@.len() + 1) as u64,
                        validator_id,
                        time,
                        old(self).config.latency_ticks,
                    )
                    &&& final(self).validators@[validator_id as int].latest_created_height == height
                    &&& forall|u: int|
                        0 <= u < old(self).validators@.len() && u != validator_id
                            ==> (#[trigger] final(self).validators@[u]).latest_created_height
                            == old(self).validators@[u].latest_created_height
                } else {
                    final(self).same_but_pool(*old(self))
                        && final(self).event_pool@ == old(self).event_pool@
                }
            }),
    {
        let height = self.block_height(previous_block_id) + 1;
        if height <= self.validators[validator_id].latest_created_height {
            return;
        }
        if self.blocks.len() as u64 >= u64::MAX - 3 {
            return;
        }
        let ghost old_self = *old(self);
        let ghost old_blocks = self.blocks@;
        self.validators[validator_id].latest_created_height = height;
        let block = Block { height, previous_block_id, validator_id, weight, time };
        proof {
            lemma_push_keeps_wf(old_blocks, block);
        }
        self.blocks.push(block);
        let id: u64 = self.blocks.len() as u64;
        let n: usize = self.validators.len();
        let ghost pool0 = self.event_pool@;
        let ghost s0 = *self;
        proof {
            assert(extends(old_blocks, self.blocks@));
        }
        let mut i: usize = 0;
        while i < n
            invariant
                n == self.validators@.len(),
                self.blocks@ == s0.blocks@,
                self.validators@ == s0.validators@,
                self.finalized_blocks@ == s0.finalized_blocks@,
                self.finalized_log@ == s0.finalized_log@,
                self.config == s0.config,
                self.weights@ == s0.weights@,
                self.stop == s0.stop,
                i <= n,
                self.event_pool@ == pool0 + gossip(i as nat, id, validator_id, time, self.config.latency_ticks),
            decreases n - i,
        {
            let latency: u64 = if validator_id == i {
                0
            } else {
                self.config.latency_ticks
            };
            self.event_pool.push(
                TimedEvent {
                    time: time.saturating_add(latency),
                    validator_id: i,
                    event: Event::BlockReceived { block_id: id },
                },
            );
            i = i + 1;
            assert(self.event_pool@ =~= pool0 + gossip(i as nat, id, validator_id, time, self.config.latency_ticks));
        }
        proof {
            assert forall|v: int| 0 <= v < self.validators@.len() implies validator_wf(
                #[trigger] self.validators@[v],
                self.blocks@,
                self.finalized_blocks@,
            ) by {
                let val = self.validators@[v];
                assert(validator_wf(old_self.validators@[v], old_blocks, old_self.finalized_blocks@));
                lemma_extends_keeps_heights(old_blocks, self.blocks@, val.finalized_block_id);
                lemma_walk_extends(
                    old_blocks,
                    self.blocks@,
                    val.current_head_id,
                    val.finalized_block_id,
                    hgt(old_blocks, val.finalized_block_id),
                    val.current_head_id,
                );
            }
        }
    }

    /// A run that has not started: one validator per power, each with its start signal
    /// pending, and no block. `weights[v][h]`, the weight validator `v` draws for height `h`,
    /// is a fraction of 2^32 below one, for every height a VDF can target.
    pub fn new(config: Config, powers: Vec<u64>, weights: Vec<Vec<u64>>) -> (r: Simulation)
        requires
            powers@.len() == config.validators_count,
            weights@.len() == config.validators_count,
            forall|v: int|
                0 <= v < weights@.len() ==> #[trigger] weights@[v]@.len() > config.stop_height + 2,
            forall|v: int, h: int|
                0 <= v < weights@.len() && 0 <= h < weights@[v]@.len() ==> #[trigger] weights@[v]@[h]
                    < WEIGHT_ONE,
        ensures
            r.wf(),
            r.config == config,
            r.weights@ == weights@,
            r.validators@.len() == config.validators_count,
            forall|i: int|
                0 <= i < powers@.len() ==> {
                    &&& (#[trigger] r.validators@[i]).power == powers@[i]
                    &&& r.validators@[i].finalized_block_id == 0
                    &&& r.validators@[i].current_head_id == 0
                    &&& r.validators@[i].current_fork_weight == 0
                    &&& r.validators@[i].finished_vdf@ == Map::<u64, u64>::empty()
                    &&& r.validators@[i].latest_created_height == 0
                },
            r.event_pool@ == start_signals(powers@.len()),
            r.blocks@.len() == 0,
            r.finalized_blocks@ == Map::<u64, u64>::empty(),
            r.finalized_log@.len() == 0,
            !r.stop,
    {
        let mut validators: Vec<Validator> = Vec::new();
        let mut event_pool: Vec<TimedEvent> = Vec::new();
        let mut i: usize = 0;
        while i < powers.len()
            invariant
                i <= powers@.len(),
                validators@.len() == i,
                event_pool@ == start_signals(i as nat),
                forall|k: int|
                    0 <= k < i ==> {
                        &&& (#[trigger] validators@[k]).power == powers@[k]
                        &&& validators@[k].finalized_block_id == 0
                        &&& validators@[k].current_head_id == 0
                        &&& validators@[k].current_fork_weight == 0
                        &&& validators@[k].finished_vdf@ == Map::<u64, u64>::empty()
                        &&& validators@[k].latest_created_height == 0
                    },
            decreases powers@.len() - i,
        {
            validators.push(Validator::from_power(powers[i]));
            event_pool.push(
                TimedEvent { time: 0, validator_id: i, event: Event::BlockReceived { block_id: 0 } },
            );
            i = i + 1;
            assert(event_pool@ =~= start_signals(i as nat));
        }
        Simulation {
            config,
            event_pool,
            validators,
            weights,
            blocks: Vec::new(),
            finalized_blocks: BTreeMap::new(),
            finalized_log: Vec::new(),
            stop: false,
        }
    }

    /// Applies one event.
    pub fn process_event(&mut self, event: TimedEvent)
        requires
            old(self).wf(),
        ensures
            final(self).wf(),
            final(self).config == old(self).config,
            final(self).weights@ == old(self).weights@,
            extends(old(self).blocks@, final(self).blocks@),
            index_grows(old(self).finalized_blocks@, final(self).finalized_blocks@),
            finality_monotone(
                old(self).blocks@,
                old(self).validators@,
                final(self).blocks@,
                final(self).validators@,
            ),
            old(self).stop ==> final(self).stop,
            event_post(*old(self), *final(self), event),
            appended_from(old(self).event_pool@, final(self).event_pool@, event.time),
    {
        match event.event {
            Event::BlockReceived { block_id } => {
                self.process_event_block_received(event.time, event.validator_id, block_id);
            },
            Event::VdfFinished { input_block_id, output_block_height, weight } => {
                let ghost s0 = *old(self);
                self.process_event_vdf_finished(
                    event.time,
                    event.validator_id,
                    input_block_id,
                    output_block_height,
                    weight,
                );
                proof {
                    assert forall|u: int| 0 <= u < s0.validators@.len() implies hgt(
                        s0.blocks@,
                        s0.validators@[u].finalized_block_id,
                    ) <= hgt(self.blocks@, (#[trigger] self.validators@[u]).finalized_block_id) by {
                        assert(validator_wf(s0.validators@[u], s0.blocks@, s0.finalized_blocks@));
                        lemma_extends_keeps_heights(
                            s0.blocks@,
                            self.blocks@,
                            s0.validators@[u].finalized_block_id,
                        );
                    }
                }
            },
        }
        proof {
            lemma_event_post_appends(*old(self), *self, event);
        }
    }

    /// Applies the earliest pending event; false when none is left.
    pub fn next(&mut self) -> (r: bool)
        requires
            old(self).wf(),
        ensures
            r == (old(self).event_pool@.len() > 0),
            !r ==> final(self).same_but_pool(*old(self)) && final(self).event_pool@ == old(
                self,
            ).event_pool@,
            r ==> next_step(*old(self), *final(self)),
            final(self).wf(),
            final(self).config == old(self).config,
            extends(old(self).blocks@, final(self).blocks@),
            index_grows(old(self).finalized_blocks@, final(self).finalized_blocks@),
            finality_monotone(
                old(self).blocks@,
                old(self).validators@,
                final(self).blocks@,
                final(self).validators@,
            ),
            old(self).stop ==> final(self).stop,
    {
        match pop_earliest(&mut self.event_pool) {
            Some(e) => {
                let ghost mid = *self;
                self.process_event(e);
                proof {
                    let i = choose|i: int|
                        0 <= i < old(self).event_pool@.len() && old(self).event_pool@[i] == e
                            && mid.event_pool@ == old(self).event_pool@.remove(i) && (forall|j: int|
                            0 <= j < i ==> e.time < #[trigger] old(self).event_pool@[j].time);
                    assert(mid.same_but_pool(*old(self)));
                    assert(event_post(mid, *self, old(self).event_pool@[i]));
                    assert(first_earliest(old(self).event_pool@, i));
                    reveal(next_step);
                    assert(next_step(*old(self), *self));
                }
                true
            },
            None => false,
        }
    }

    /// Applies events in order of time (see `next_step`) until none is left, `stop` is set, or
    /// the configured number of steps is over (`step_stop + 1` events), and returns how many it
    /// applied. The states it passes through form a trace of `next_step`s, none of them from a
    /// stopped state; a run without a step limit also ends after `u64::MAX` events.
    pub fn run(&mut self) -> (steps: u64)
        requires
            old(self).wf(),
        ensures
            final(self).wf(),
            final(self).config == old(self).config,
            extends(old(self).blocks@, final(self).blocks@),
            index_grows(old(self).finalized_blocks@, final(self).finalized_blocks@),
            finality_monotone(
                old(self).blocks@,
                old(self).validators@,
                final(self).blocks@,
                final(self).validators@,
            ),
            old(self).config.step_stop matches Some(n) ==> steps <= n + 1,
            final(self).stop || final(self).event_pool@.len() == 0 || (old(self).config.step_stop matches Some(
                n,
            ) && steps == n + 1) || steps == u64::MAX,
            exists|trace: Seq<Simulation>|
                {
                    &&& trace.len() == steps + 1
                    &&& trace[0] == *old(self)
                    &&& trace.last() == *final(self)
                    &&& forall|k: int|
                        0 <= k < steps ==> !(#[trigger] trace[k]).stop && next_step(trace[k], trace[k + 1])
                },
    {
        let mut steps: u64 = 0;
        let ghost mut trace: Seq<Simulation> = seq![*self];
        loop
            invariant_except_break
                steps < u64::MAX,
            invariant
                self.wf(),
                self.config == old(self).config,
                extends(old(self).blocks@, self.blocks@),
                index_grows(old(self).finalized_blocks@, self.finalized_blocks@),
                finality_monotone(
                    old(self).blocks@,
                    old(self).validators@,
                    self.blocks@,
                    self.validators@,
                ),
                old(self).config.step_stop matches Some(n) ==> steps <= n + 1,
                trace.len() == steps + 1,
                trace[0] == *old(self),
                trace.last() == *self,
                forall|k: int|
                    0 <= k < steps ==> !(#[trigger] trace[k]).stop && next_step(trace[k], trace[k + 1]),
            ensures
                self.stop || self.event_pool@.len() == 0 || (old(self).config.step_stop matches Some(n)
                    && steps == n + 1) || steps == u64::MAX,
            decreases u64::MAX - steps,
        {
            if let Some(n) = self.config.step_stop {
                if steps > n {
                    break;
                }
            }
            if self.stop || self.event_pool.len() == 0 {
                break;
            }
            let ghost before = *self;
            let more = self.next();
            proof {
                lemma_chain_progress(*old(self), before, *self);
                let t0 = trace;
                trace = trace.push(*self);
                assert forall|k: int|
                    0 <= k < steps + 1 implies !(#[trigger] trace[k]).stop && next_step(trace[k], trace[k + 1]) by {
                    if k < steps {
                        assert(trace[k] == t0[k]);
                        assert(trace[k + 1] == t0[k + 1]);
                    }
                }
            }
            steps = steps + 1;
            if self.stop || steps == u64::MAX {
                break;
            }
        }
        steps
    }

    /// Applies the arrival of block `block_id` at `validator_id`. Block 0 starts the validator's
    /// two genesis VDFs. Another block is ignored unless its chain passes through the
    /// validator's finalized block; then a VDF is started on it (below the stop height), and it
    /// becomes the head if its fork is strictly heavier. A new head lets a VDF already finished
    /// on its parent produce a block at once, and finalizes blocks from the bottom of the fork
    /// while the fork stays heavier than the finalization weight. Finalizing at a height where
    /// another block was finalized sets `stop` instead.
    pub fn process_event_block_received(&mut self, time: u64, validator_id: usize, block_id: u64)
        requires
            old(self).wf(),
        ensures
            final(self).wf(),
            final(self).config == old(self).config,
            final(self).weights@ == old(self).weights@,
            extends(old(self).blocks@, final(self).blocks@),
            index_grows(old(self).finalized_blocks@, final(self).finalized_blocks@),
            finality_monotone(
                old(self).blocks@,
                old(self).validators@,
                final(self).blocks@,
                final(self).validators@,
            ),
            old(self).stop ==> final(self).stop,
            block_received_post(*old(self), *final(self), time, validator_id, block_id),
    {
        if validator_id >= self.validators.len() {
            return;
        }
        if block_id == 0 {
            self.start_vdf(time, 0, 1, validator_id);
            self.start_vdf(time, 0, 2, validator_id);
            return;
        }
        if block_id > self.blocks.len() as u64 {
            return;
        }
        let ghost s0 = *old(self);
        let fin0 = self.validators[validator_id].finalized_block_id;
        let fh0 = self.block_height(fin0);
        let (weight, candidate) = match compute_fork_weight(&self.blocks, block_id, fin0, fh0) {
            Some(r) => r,
            None => {
                return;
            },
        };
        let height = self.block_height(block_id);
        if height < self.config.stop_height {
            self.start_vdf(time, block_id, height + 2, validator_id);
        }
        if weight <= self.validators[validator_id].current_fork_weight {
            assert(self.event_pool@.subrange(0, self.event_pool@.len() as int) =~= self.event_pool@);
            return;
        }
        self.adopt_head(time, validator_id, block_id, weight, candidate);
    }

    /// Makes `block_id`, whose fork is heavier than the current one, the head of
    /// `validator_id`; finalizes from the bottom of the fork while the fork weighs more than the
    /// finalization weight (see `fin_steps`); then builds the block that a VDF already finished
    /// on the new head's parent allows.
    fn adopt_head(&mut self, time: u64, validator_id: usize, block_id: u64, weight: u128, candidate: u64)
        requires
            old(self).wf(),
            validator_id < old(self).validators@.len(),
            1 <= block_id <= old(self).blocks@.len(),
            fork_weight(
                old(self).blocks@,
                block_id,
                old(self).validators@[validator_id as int].finalized_block_id,
            ) == Some((weight as int, candidate)),
            weight > old(self).validators@[validator_id as int].current_fork_weight,
        ensures
            final(self).wf(),
            extends(old(self).blocks@, final(self).blocks@),
            index_grows(old(self).finalized_blocks@, final(self).finalized_blocks@),
            finality_monotone(
                old(self).blocks@,
                old(self).validators@,
                final(self).blocks@,
                final(self).validators@,
            ),
            adoption_post(*old(self), old(self).event_pool@, *final(self), time, validator_id, block_id),
    {
        let ghost s0 = *old(self);
        self.validators[validator_id].current_head_id = block_id;
        self.validators[validator_id].current_fork_weight = weight;
        proof {
            assert forall|v: int| 0 <= v < self.validators@.len() implies validator_wf(
                #[trigger] self.validators@[v],
                self.blocks@,
                self.finalized_blocks@,
            ) by {
                assert(validator_wf(s0.validators@[v], s0.blocks@, s0.finalized_blocks@));
            }
        }
        let ghost s1 = *self;
        self.finalize_fork(validator_id, block_id, weight, candidate);
        let ghost s2 = *self;
        self.build_on_head(time, validator_id, block_id);
        proof {
            lemma_chain_progress(s0, s1, s2);
            lemma_chain_progress(s0, s2, *self);
            let vi = validator_id as int;
            let f = s2.validators@[vi].finalized_block_id;
            let f0 = s0.validators@[vi].finalized_block_id;
            assert(validator_wf(s2.validators@[vi], s2.blocks@, s2.finalized_blocks@));
            assert(validator_wf(s0.validators@[vi], s0.blocks@, s0.finalized_blocks@));
            lemma_extends_keeps_heights(s0.blocks@, self.blocks@, f);
            lemma_extends_keeps_heights(s0.blocks@, self.blocks@, f0);
            lemma_ancestor_extends(s0.blocks@, self.blocks@, f, (hgt(s0.blocks@, f) - hgt(s0.blocks@, f0)) as nat);
            assert(validator_wf(self.validators@[vi], self.blocks@, self.finalized_blocks@));
            assert forall|u: int| 0 <= u < s0.validators@.len() && u != vi implies {
                &&& (#[trigger] self.validators@[u]).finalized_block_id == s0.validators@[u].finalized_block_id
                &&& self.validators@[u].current_head_id == s0.validators@[u].current_head_id
                &&& self.validators@[u].current_fork_weight == s0.validators@[u].current_fork_weight
                &&& self.validators@[u].finished_vdf@ == s0.validators@[u].finished_vdf@
                &&& self.validators@[u].power == s0.validators@[u].power
                &&& self.validators@[u].latest_created_height == s0.validators@[u].latest_created_height
            } by {
                assert(s1.validators@[u].finalized_block_id == s0.validators@[u].finalized_block_id);
                assert(s2.validators@[u].finalized_block_id == s1.validators@[u].finalized_block_id);
            }
        }
    }

    /// Finalizes from the bottom of the fork of `validator_id`, whose head is `block_id`, while
    /// the fork weighs more than the finalization weight, exactly as `fin_steps` says.
    #[verifier::rlimit(60)]
    fn finalize_fork(&mut self, validator_id: usize, block_id: u64, weight: u128, candidate: u64)
        requires
            old(self).wf(),
            validator_id < old(self).validators@.len(),
            1 <= block_id <= old(self).blocks@.len(),
            old(self).validators@[validator_id as int].current_head_id == block_id,
            fork_weight(
                old(self).blocks@,
                block_id,
                old(self).validators@[validator_id as int].finalized_block_id,
            ) == Some((weight as int, candidate)),
        ensures
            final(self).wf(),
            final(self).config == old(self).config,
            final(self).weights@ == old(self).weights@,
            final(self).blocks@ == old(self).blocks@,
            final(self).event_pool@ == old(self).event_pool@,
            index_grows(old(self).finalized_blocks@, final(self).finalized_blocks@),
            finality_monotone(
                old(self).blocks@,
                old(self).validators@,
                final(self).blocks@,
                final(self).validators@,
            ),
            others_same(old(self).validators@, final(self).validators@, validator_id as int),
            ({
                let v = validator_id as int;
                let ov = old(self).validators@[v];
                let nv = final(self).validators@[v];
                let b = old(self).blocks@;
                let r = fin_steps(
                    b,
                    old(self).finalized_blocks@,
                    block_id,
                    ov.finalized_block_id,
                    finalization_threshold(old(self).config),
                );
                &&& final(self).finalized_blocks@ == r.1
                &&& final(self).stop == (old(self).stop || r.2)
                &&& nv.finalized_block_id == r.0
                &&& nv.current_head_id == block_id
                &&& nv.finished_vdf@ == ov.finished_vdf@
                &&& nv.latest_created_height == ov.latest_created_height
                &&& nv.power == ov.power
                &&& hgt(b, ov.finalized_block_id) <= hgt(b, r.0)
                &&& ancestor(b, r.0, (hgt(b, r.0) - hgt(b, ov.finalized_block_id)) as nat)
                    == ov.finalized_block_id
            }),
    {
        let ghost s0 = *old(self);
        let fin0 = self.validators[validator_id].finalized_block_id;
        let fh0 = self.block_height(fin0);
        let mut weight = weight;
        let mut candidate = candidate;
        let ghost blocks = self.blocks@;
        let threshold: u128 = (self.config.finalization_weight as u128) * (WEIGHT_ONE as u128);
        let ghost thr = finalization_threshold(s0.config);
        let ghost target = fin_steps(blocks, s0.finalized_blocks@, block_id, fin0, thr);
        let mut fin: u64 = fin0;
        let mut fh: u64 = fh0;
        while weight > threshold
            invariant
                self.wf(),
                s0 == *old(self),
                validator_id < self.validators@.len(),
                1 <= block_id <= blocks.len(),
                blocks == s0.blocks@,
                self.blocks@ == blocks,
                self.config == s0.config,
                self.weights@ == s0.weights@,
                self.event_pool@ == s0.event_pool@,
                self.stop == s0.stop,
                index_grows(s0.finalized_blocks@, self.finalized_blocks@),
                finality_monotone(s0.blocks@, s0.validators@, self.blocks@, self.validators@),
                others_same(s0.validators@, self.validators@, validator_id as int),
                self.validators@[validator_id as int].current_head_id == block_id,
                self.validators@[validator_id as int].finished_vdf@ == s0.validators@[validator_id as int].finished_vdf@,
                self.validators@[validator_id as int].latest_created_height == s0.validators@[validator_id as int].latest_created_height,
                self.validators@[validator_id as int].power == s0.validators@[validator_id as int].power,
                self.validators@[validator_id as int].finalized_block_id == fin,
                fin <= blocks.len(),
                fh == hgt(blocks, fin),
                fin0 == s0.validators@[validator_id as int].finalized_block_id,
                fork_weight(blocks, block_id, fin) == Some((weight as int, candidate)),
                threshold == thr,
                thr == finalization_threshold(s0.config),
                fin_steps(blocks, self.finalized_blocks@, block_id, fin, thr) == target,
                target == fin_steps(s0.blocks@, s0.finalized_blocks@, block_id, fin0, thr),
                hgt(blocks, fin0) <= hgt(blocks, fin),
                ancestor(blocks, fin, (hgt(blocks, fin) - hgt(blocks, fin0)) as nat) == fin0,
            decreases hgt(blocks, block_id) - fh,
        {
            let ghost before = *self;
            let ghost k = (hgt(blocks, fin) - hgt(blocks, fin0)) as nat;
            match self.finalize_candidate(validator_id, block_id, weight, candidate) {
                Some((w, c)) => {
                    proof {
                        lemma_fin_step(blocks, before.finalized_blocks@, block_id, fin, thr, weight as int, candidate);
                        assert(ancestor(blocks, candidate, k + 1) == ancestor(blocks, fin, k));
                        lemma_chain_progress(s0, before, *self);
                    }
                    fin = candidate;
                    fh = self.block_height(candidate);
                    weight = w;
                    candidate = c;
                },
                None => {
                    proof {
                        lemma_fin_step(blocks, before.finalized_blocks@, block_id, fin, thr, weight as int, candidate);
                        lemma_chain_progress(s0, before, *self);
                        assert(fin_steps(
                            old(self).blocks@,
                            old(self).finalized_blocks@,
                            block_id,
                            old(self).validators@[validator_id as int].finalized_block_id,
                            finalization_threshold(old(self).config),
                        ) == (fin, self.finalized_blocks@, true));
                    }
                    return;
                },
            }
        }
        proof {
            lemma_fin_done(blocks, self.finalized_blocks@, block_id, fin, thr, weight as int, candidate);
            assert(fin_steps(
                old(self).blocks@,
                old(self).finalized_blocks@,
                block_id,
                old(self).validators@[validator_id as int].finalized_block_id,
                finalization_threshold(old(self).config),
            ) == (fin, self.finalized_blocks@, false));
        }
    }

    /// Builds, on top of `block_id`, the block that a VDF already finished on its parent allows.
    fn build_on_head(&mut self, time: u64, validator_id: usize, block_id: u64)
        requires
            old(self).wf(),
            validator_id < old(self).validators@.len(),
            1 <= block_id <= old(self).blocks@.len(),
        ensures
            final(self).wf(),
            final(self).config == old(self).config,
            final(self).weights@ == old(self).weights@,
            final(self).finalized_blocks@ == old(self).finalized_blocks@,
            final(self).stop == old(self).stop,
            same_views(old(self).validators@, final(self).validators@),
            others_same(old(self).validators@, final(self).validators@, validator_id as int),
            extends(old(self).blocks@, final(self).blocks@),
            index_grows(old(self).finalized_blocks@, final(self).finalized_blocks@),
            finality_monotone(
                old(self).blocks@,
                old(self).validators@,
                final(self).blocks@,
                final(self).validators@,
            ),
            build_post(*old(self), old(self).event_pool@, *final(self), time, validator_id, block_id),
    {
        let ghost s0 = *old(self);
        let n: usize = self.blocks.len();
        assert(block_id - 1 < n);
        let prev = self.blocks[(block_id - 1) as usize].previous_block_id;
        let found: Option<u64> = match self.validators[validator_id].finished_vdf.get(&prev) {
            Some(w) => Some(*w),
            None => None,
        };
        if let Some(w) = found {
            self.create_block(time, validator_id, block_id, w);
        }
        proof {
            assert forall|u: int| 0 <= u < s0.validators@.len() implies hgt(
                s0.blocks@,
                s0.validators@[u].finalized_block_id,
            ) <= hgt(self.blocks@, (#[trigger] self.validators@[u]).finalized_block_id) by {
                assert(validator_wf(s0.validators@[u], s0.blocks@, s0.finalized_blocks@));
                lemma_extends_keeps_heights(s0.blocks@, self.blocks@, s0.validators@[u].finalized_block_id);
            }
        }
    }

    /// Finalizes `candidate`, the lowest block of the fork of `validator_id` above its
    /// finalized block, and returns the fork's new weight and candidate; or, when another block
    /// was finalized at that height, sets `stop` and changes nothing else.
    fn finalize_candidate(&mut self, validator_id: usize, block_id: u64, weight: u128, candidate: u64) -> (r:
        Option<(u128, u64)>)
        requires
            old(self).wf(),
            validator_id < old(self).validators@.len(),
            1 <= block_id <= old(self).blocks@.len(),
            old(self).validators@[validator_id as int].current_head_id == block_id,
            fork_weight(
                old(self).blocks@,
                block_id,
                old(self).validators@[validator_id as int].finalized_block_id,
            ) == Some((weight as int, candidate)),
            weight > 0,
        ensures
            final(self).wf(),
            final(self).config == old(self).config,
            final(self).weights@ == old(self).weights@,
            final(self).blocks@ == old(self).blocks@,
            final(self).event_pool@ == old(self).event_pool@,
            final(self).validators@.len() == old(self).validators@.len(),
            others_same(old(self).validators@, final(self).validators@, validator_id as int),
            index_grows(old(self).finalized_blocks@, final(self).finalized_blocks@),
            finality_monotone(
                old(self).blocks@,
                old(self).validators@,
                final(self).blocks@,
                final(self).validators@,
            ),
            ({
                let v = validator_id as int;
                let fin = old(self).validators@[v].finalized_block_id;
                let h = hgt(old(self).blocks@, candidate) as u64;
                &&& final(self).validators@[v].current_head_id == block_id
                &&& final(self).validators@[v].finished_vdf@ == old(self).validators@[v].finished_vdf@
                &&& final(self).validators@[v].latest_created_height
                    == old(self).validators@[v].latest_created_height
                &&& final(self).validators@[v].power == old(self).validators@[v].power
                &&& 1 <= candidate <= old(self).blocks@.len()
                &&& hgt(old(self).blocks@, candidate) == hgt(old(self).blocks@, fin) + 1
                &&& hgt(old(self).blocks@, candidate) <= hgt(old(self).blocks@, block_id)
                &&& parent(old(self).blocks@, candidate) == fin
                &&& match r {
                    None => {
                        &&& old(self).finalized_blocks@.contains_key(h)
                        &&& old(self).finalized_blocks@[h] != candidate
                        &&& final(self).stop
                        &&& final(self).finalized_blocks@ == old(self).finalized_blocks@
                        &&& final(self).validators@[v].finalized_block_id == fin
                    },
                    Some((w, c)) => {
                        &&& !(old(self).finalized_blocks@.contains_key(h)
                            && old(self).finalized_blocks@[h] != candidate)
                        &&& final(self).stop == old(self).stop
                        &&& final(self).finalized_blocks@ == old(self).finalized_blocks@.insert(h, candidate)
                        &&& final(self).validators@[v].finalized_block_id == candidate
                        &&& fork_weight(old(self).blocks@, block_id, candidate) == Some((w as int, c))
                    },
                }
            }),
    {
        let ghost s0 = *old(self);
        let ghost blocks = self.blocks@;
        let fin = self.validators[validator_id].finalized_block_id;
        proof {
            assert(validator_wf(s0.validators@[validator_id as int], blocks, s0.finalized_blocks@));
            lemma_walk_shape(blocks, block_id, fin, block_id);
            lemma_walk_refinalize(blocks, block_id, fin, block_id);
        }
        let cand_height = self.block_height(candidate);
        let existing: Option<u64> = match self.finalized_blocks.get(&cand_height) {
            Some(id) => Some(*id),
            None => None,
        };
        match existing {
            Some(id) => {
                if id != candidate {
                    self.stop = true;
                    proof {
                        assert forall|v: int| 0 <= v < self.validators@.len() implies validator_wf(
                            #[trigger] self.validators@[v],
                            self.blocks@,
                            self.finalized_blocks@,
                        ) by {
                            assert(validator_wf(s0.validators@[v], blocks, s0.finalized_blocks@));
                        }
                    }
                    return None;
                }
                proof {
                    assert(self.finalized_blocks@.insert(cand_height, candidate) =~= self.finalized_blocks@);
                }
            },
            None => {
                proof {
                    lemma_next_height(s0, validator_id as int, cand_height);
                }
                self.finalized_blocks.insert(cand_height, candidate);
                self.finalized_log.push((cand_height, candidate));
                proof {
                    let idx = self.finalized_blocks@;
                    let log = self.finalized_log@;
                    assert forall|i: int| 0 <= i < log.len() implies (#[trigger] log[i]).0 == i + 1
                        && idx.contains_key(log[i].0) && idx[log[i].0] == log[i].1 by {
                        if i < log.len() - 1 {
                            assert(log[i] == s0.finalized_log@[i]);
                        }
                    }
                }
            },
        }
        self.validators[validator_id].finalized_block_id = candidate;
        let next = compute_fork_weight(&self.blocks, block_id, candidate, cand_height);
        let (w, c) = match next {
            Some(r) => r,
            None => {
                proof {
                    assert(false);
                }
                (0, 0)
            },
        };
        self.validators[validator_id].current_fork_weight = w;
        proof {
            lemma_finalize_step(s0, s0, *self, validator_id as int);
        }
        Some((w, c))
    }

    /// Applies the end of a VDF of `validator_id`: records its weight under its root, then
    /// builds the block it allows, retries later if it is premature, or drops it if the
    /// validator's head has moved to another branch.
    pub fn process_event_vdf_finished(
        &mut self,
        time: u64,
        validator_id: usize,
        input_block_id: u64,
        output_block_height: u64,
        weight: u64,
    )
        requires
            old(self).wf(),
        ensures
            final(self).wf(),
            extends(old(self).blocks@, final(self).blocks@),
            vdf_finished_post(
                *old(self),
                *final(self),
                time,
                validator_id,
                input_block_id,
                output_block_height,
                weight,
            ),
    {
        if validator_id >= self.validators.len() {
            return;
        }
        let ghost s0 = *old(self);
        self.validators[validator_id].finished_vdf.insert(input_block_id, weight);
        proof {
            assert forall|v: int| 0 <= v < self.validators@.len() implies validator_wf(
                #[trigger] self.validators@[v],
                self.blocks@,
                self.finalized_blocks@,
            ) by {
                assert(validator_wf(s0.validators@[v], s0.blocks@, s0.finalized_blocks@));
            }
        }
        let head_id = self.validators[validator_id].current_head_id;
        if input_block_id == 0 {
            if output_block_height == 1 {
                self.create_block(time, validator_id, 0, weight);
                return;
            }
            if output_block_height == 2 {
                if head_id == 0 {
                    return;
                }
                let n: usize = self.blocks.len();
                assert(head_id - 1 < n);
                if self.blocks[(head_id - 1) as usize].previous_block_id != 0 {
                    return;
                }
                self.create_block(time, validator_id, head_id, weight);
                return;
            }
        }
        if head_id == input_block_id {
            let event = Event::VdfFinished { input_block_id, output_block_height, weight };
            self.event_pool.push(
                TimedEvent {
                    time: time.saturating_add(self.config.vdf_apply_retry_ticks),
                    validator_id,
                    event,
                },
            );
            return;
        }
        if head_id == 0 {
            return;
        }
        let n: usize = self.blocks.len();
        assert(head_id - 1 < n);
        if self.blocks[(head_id - 1) as usize].previous_block_id != input_block_id {
            return;
        }
        self.create_block(time, validator_id, head_id, weight);
    }

    /// Schedules the end of a VDF of `validator_id` rooted at `input_block_id`, for a block at
    /// `output_block_height`, with the weight the validator draws for that height.
    pub fn start_vdf(
        &mut self,
        current_time: u64,
        input_block_id: u64,
        output_block_height: u64,
        validator_id: usize,
    )
        ensures
            final(self).same_but_pool(*old(self)),
            final(self).event_pool@ == old(self).event_pool@.push(
                vdf_event(*old(self), current_time, input_block_id, output_block_height, validator_id),
            ),
    {
        let mut weight: u64 = 0;
        if validator_id < self.weights.len() {
            let row = &self.weights[validator_id];
            if (output_block_height as usize) < row.len() && output_block_height <= usize::MAX as u64 {
                weight = row[output_block_height as usize];
            }
        }
        let ticks = vdf_delay(
            weight,
            input_block_id,
            output_block_height,
            self.config.vdf_block_ticks,
            self.config.vdf_max_weight_ticks,
        );
        let event = Event::VdfFinished { input_block_id, output_block_height, weight };
        self.event_pool.push(
            TimedEvent { time: current_time.saturating_add(ticks), validator_id, event },
        );
    }
}

} // verus!
