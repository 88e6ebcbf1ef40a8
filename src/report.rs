use crate::sim::Simulation;
use crate::store::Block;
use vstd::prelude::*;

verus! {

/// Count, total, least and greatest of a set of block times.
#[derive(Clone, Copy, Debug, PartialEq, Eq, Structural)]
pub struct TimeStats {
    pub count: u64,
    pub sum: u128,
    /// `u64::MAX` when there is nothing.
    pub min: u64,
    /// 0 when there is nothing.
    pub max: u64,
}

/// Block times between consecutive finalized blocks: all of them, those leaving an even
/// height, and those leaving an odd height.
#[derive(Clone, Copy, Debug, PartialEq, Eq, Structural)]
pub struct BlockTimeStats {
    pub all: TimeStats,
    pub even_odd: TimeStats,
    pub odd_even: TimeStats,
}

/// Which transitions a `TimeStats` gathers.
pub open spec fn selected(height: u64, parity: int) -> bool {
    parity == 2 || (height % 2) as int == parity
}

/// The stats of nothing.
pub open spec fn empty_stats() -> TimeStats {
    TimeStats { count: 0, sum: 0, min: u64::MAX, max: 0 }
}

/// `s` with one more time `x`.
pub open spec fn add_time(s: TimeStats, x: u64) -> TimeStats {
    TimeStats {
        count: (s.count + 1) as u64,
        sum: (s.sum + x) as u128,
        min: if x < s.min { x } else { s.min },
        max: if x > s.max { x } else { s.max },
    }
}

/// The stats of the transitions `d` (height left, time taken) whose height has the parity
/// (0 even, 1 odd, 2 any).
pub open spec fn stats_of(d: Seq<(u64, u64)>, parity: int) -> TimeStats
    decreases d.len(),
{
    if d.len() == 0 {
        empty_stats()
    } else {
        let s = stats_of(d.drop_last(), parity);
        if selected(d.last().0, parity) {
            add_time(s, d.last().1)
        } else {
            s
        }
    }
}

/// Creation tick of block `id` (0 for an id that is not stored).
pub open spec fn time_of(blocks: Seq<Block>, id: u64) -> u64 {
    if 1 <= id <= blocks.len() {
        blocks[id - 1].time
    } else {
        0
    }
}

/// Creator of block `id` (none for an id that is not stored).
pub open spec fn creator_of(blocks: Seq<Block>, id: u64) -> Option<usize> {
    if 1 <= id <= blocks.len() {
        Some(blocks[id - 1].validator_id)
    } else {
        None
    }
}

/// The transitions between consecutive entries of the finalization log: the height left and
/// the ticks between the two blocks' creations (0 if the later block is older).
pub open spec fn transitions(blocks: Seq<Block>, log: Seq<(u64, u64)>) -> Seq<(u64, u64)> {
    Seq::new(
        if log.len() == 0 { 0 } else { (log.len() - 1) as nat },
        |i: int|
            {
                let t0 = time_of(blocks, log[i].1);
                let t1 = time_of(blocks, log[i + 1].1);
                (log[i].0, if t1 >= t0 { (t1 - t0) as u64 } else { 0u64 })
            },
    )
}

/// Number of log entries whose block `v` created.
pub open spec fn wins_of(blocks: Seq<Block>, log: Seq<(u64, u64)>, v: usize) -> nat
    decreases log.len(),
{
    if log.len() == 0 {
        0
    } else {
        wins_of(blocks, log.drop_last(), v) + if creator_of(blocks, log.last().1) == Some(v) {
            1nat
        } else {
            0nat
        }
    }
}

fn add_time_exec(s: TimeStats, x: u64) -> (r: TimeStats)
    requires
        s.count < u64::MAX,
        s.sum <= s.count * 0xFFFF_FFFF_FFFF_FFFFu128,
    ensures
        r == add_time(s, x),
        r.sum <= r.count * 0xFFFF_FFFF_FFFF_FFFFu128,
{
    assert(s.sum + x <= (s.count + 1) * 0xFFFF_FFFF_FFFF_FFFFu128) by (nonlinear_arith)
        requires
            s.sum <= s.count * 0xFFFF_FFFF_FFFF_FFFFu128,
            x <= 0xFFFF_FFFF_FFFF_FFFFu64,
    ;
    assert((s.count + 1) * 0xFFFF_FFFF_FFFF_FFFFu128 <= 0xFFFF_FFFF_FFFF_FFFFu128
        * 0xFFFF_FFFF_FFFF_FFFFu128) by (nonlinear_arith)
        requires
            s.count + 1 <= 0xFFFF_FFFF_FFFF_FFFFu64,
    ;
    TimeStats {
        count: s.count + 1,
        sum: s.sum + x as u128,
        min: if x < s.min { x } else { s.min },
        max: if x > s.max { x } else { s.max },
    }
}

/// A stats count never exceeds the number of transitions.
proof fn lemma_stats_count(d: Seq<(u64, u64)>, parity: int)
    requires
        d.len() <= u64::MAX,
    ensures
        stats_of(d, parity).count <= d.len(),
        stats_of(d, parity).sum <= stats_of(d, parity).count * 0xFFFF_FFFF_FFFF_FFFFu128,
    decreases d.len(),
{
    if d.len() > 0 {
        lemma_stats_count(d.drop_last(), parity);
        let s = stats_of(d.drop_last(), parity);
        let x = d.last().1;
        assert(s.sum + x <= (s.count + 1) * 0xFFFF_FFFF_FFFF_FFFFu128) by (nonlinear_arith)
            requires
                s.sum <= s.count * 0xFFFF_FFFF_FFFF_FFFFu128,
                x <= 0xFFFF_FFFF_FFFF_FFFFu64,
        ;
        assert((s.count + 1) * 0xFFFF_FFFF_FFFF_FFFFu128 <= 0xFFFF_FFFF_FFFF_FFFFu128
            * 0xFFFF_FFFF_FFFF_FFFFu128) by (nonlinear_arith)
            requires
                s.count + 1 <= 0xFFFF_FFFF_FFFF_FFFFu64,
        ;
    }
}

impl Simulation {
    fn block_time(&self, id: u64) -> (r: u64)
        ensures
            r == time_of(self.blocks@, id),
    {
        if id >= 1 && id <= self.blocks.len() as u64 {
            self.blocks[(id - 1) as usize].time
        } else {
            0
        }
    }

    /// For each validator, how many entries of the finalization log hold a block it created.
    pub fn validator_wins(&self) -> (r: Vec<u64>)
        ensures
            r@.len() == self.validators@.len(),
            forall|v: int|
                0 <= v < r@.len() ==> r@[v] == wins_of(
                    self.blocks@,
                    self.finalized_log@,
                    v as usize,
                ),
    {
        let n: usize = self.validators.len();
        let mut wins: Vec<u64> = Vec::new();
        let mut i: usize = 0;
        while i < n
            invariant
                i <= n,
                wins@.len() == i,
                forall|v: int| 0 <= v < i ==> wins@[v] == 0,
            decreases n - i,
        {
            wins.push(0);
            i = i + 1;
        }
        let log = &self.finalized_log;
        let mut k: usize = 0;
        while k < log.len()
            invariant
                k <= log@.len(),
                wins@.len() == n,
                n == self.validators@.len(),
                log@ == self.finalized_log@,
                forall|v: int|
                    0 <= v < n ==> #[trigger] wins@[v] == wins_of(self.blocks@, log@.subrange(0, k as int), v as usize),
                forall|v: int| 0 <= v < n ==> wins@[v] <= k,
            decreases log@.len() - k,
        {
            let id = log[k].1;
            let ghost prev = wins@;
            assert(log@.subrange(0, k + 1).drop_last() =~= log@.subrange(0, k as int));
            if id >= 1 && id <= self.blocks.len() as u64 {
                let c = self.blocks[(id - 1) as usize].validator_id;
                if c < n {
                    let w = wins[c];
                    wins.set(c, w + 1);
                }
            }
            k = k + 1;
        }
        assert(log@.subrange(0, log@.len() as int) =~= log@);
        wins
    }

    /// Block times between consecutive entries of the finalization log.
    pub fn block_time_stats(&self) -> (r: BlockTimeStats)
        ensures
            r.all == stats_of(transitions(self.blocks@, self.finalized_log@), 2),
            r.even_odd == stats_of(transitions(self.blocks@, self.finalized_log@), 0),
            r.odd_even == stats_of(transitions(self.blocks@, self.finalized_log@), 1),
    {
        let log = &self.finalized_log;
        let ghost d = transitions(self.blocks@, log@);
        let mut all = TimeStats { count: 0, sum: 0, min: u64::MAX, max: 0 };
        let mut even_odd = all;
        let mut odd_even = all;
        if log.len() == 0 {
            return BlockTimeStats { all, even_odd, odd_even };
        }
        let mut k: usize = 0;
        while k < log.len() - 1
            invariant
                k + 1 <= log@.len(),
                log@ == self.finalized_log@,
                d == transitions(self.blocks@, log@),
                d.len() == log@.len() - 1,
                all == stats_of(d.subrange(0, k as int), 2),
                even_odd == stats_of(d.subrange(0, k as int), 0),
                odd_even == stats_of(d.subrange(0, k as int), 1),
            decreases log@.len() - k,
        {
            let (height, id0) = log[k];
            let id1 = log[k + 1].1;
            assert(d.len() <= u64::MAX);
            let t0 = self.block_time(id0);
            let t1 = self.block_time(id1);
            let diff: u64 = if t1 >= t0 { t1 - t0 } else { 0 };
            let ghost sub = d.subrange(0, k + 1);
            proof {
                assert(sub.drop_last() =~= d.subrange(0, k as int));
                assert(sub.last() == (height, diff));
                lemma_stats_count(d.subrange(0, k as int), 2);
                lemma_stats_count(d.subrange(0, k as int), 0);
                lemma_stats_count(d.subrange(0, k as int), 1);
            }
            all = add_time_exec(all, diff);
            if height % 2 == 0 {
                even_odd = add_time_exec(even_odd, diff);
            } else {
                odd_even = add_time_exec(odd_even, diff);
            }
            k = k + 1;
        }
        assert(d.subrange(0, d.len() as int) =~= d);
        BlockTimeStats { all, even_odd, odd_even }
    }
}

} // verus!
