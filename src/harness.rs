use crate::weight::{be_bytes, sha3_256_digest, sha3_256_of, push_be_bytes};
use vstd::prelude::*;

verus! {

/// Tally of many block draws: how often each validator won and what the winning weights were.
pub struct Result {
    /// Number of draws.
    pub rounds: u64,
    /// Wins of each validator.
    pub wins: Vec<u64>,
    /// Lowest winning weight (`u64::MAX` when nothing was drawn).
    pub min_win_weight: u64,
    /// Highest winning weight (0 when nothing was drawn).
    pub max_win_weight: u64,
    /// Sum of the winning weights.
    pub sum_win_weight: u128,
    /// Most shards won by one validator at one height.
    pub max_win_across_shards: u64,
}

/// A tally as mathematical values.
pub struct Tally {
    pub rounds: int,
    pub wins: Seq<int>,
    pub min_win_weight: u64,
    pub max_win_weight: u64,
    pub sum_win_weight: int,
    pub max_win_across_shards: u64,
}

pub open spec fn min_u64(a: u64, b: u64) -> u64 {
    if a <= b { a } else { b }
}

pub open spec fn max_u64(a: u64, b: u64) -> u64 {
    if a >= b { a } else { b }
}

/// Two tallies together: counters add up (each win of `x` with the one of `y` at the same
/// index, where `y` has one), extremes combine.
pub open spec fn merge_tally(x: Tally, y: Tally) -> Tally {
    Tally {
        rounds: x.rounds + y.rounds,
        wins: Seq::new(
            x.wins.len(),
            |i: int|
                if i < y.wins.len() {
                    x.wins[i] + y.wins[i]
                } else {
                    x.wins[i]
                },
        ),
        min_win_weight: min_u64(x.min_win_weight, y.min_win_weight),
        max_win_weight: max_u64(x.max_win_weight, y.max_win_weight),
        sum_win_weight: x.sum_win_weight + y.sum_win_weight,
        max_win_across_shards: max_u64(x.max_win_across_shards, y.max_win_across_shards),
    }
}

impl Result {
    /// The tally's values.
    pub open spec fn tally(&self) -> Tally {
        Tally {
            rounds: self.rounds as int,
            wins: Seq::new(self.wins@.len(), |i: int| self.wins@[i] as int),
            min_win_weight: self.min_win_weight,
            max_win_weight: self.max_win_weight,
            sum_win_weight: self.sum_win_weight as int,
            max_win_across_shards: self.max_win_across_shards,
        }
    }

    /// An empty tally for `validators` validators.
    pub fn new(validators: usize) -> (r: Result)
        ensures
            r.rounds == 0,
            r.wins@ == Seq::new(validators as nat, |i: int| 0u64),
            r.min_win_weight == u64::MAX,
            r.max_win_weight == 0,
            r.sum_win_weight == 0,
            r.max_win_across_shards == 0,
    {
        let mut wins: Vec<u64> = Vec::new();
        let mut i: usize = 0;
        while i < validators
            invariant
                i <= validators,
                wins@ == Seq::new(i as nat, |k: int| 0u64),
            decreases validators - i,
        {
            wins.push(0);
            i = i + 1;
            assert(wins@ =~= Seq::new(i as nat, |k: int| 0u64));
        }
        Result {
            rounds: 0,
            wins,
            min_win_weight: u64::MAX,
            max_win_weight: 0,
            sum_win_weight: 0,
            max_win_across_shards: 0,
        }
    }

    /// The tally of the draws of `a` and of `b` together.
    pub fn merge(a: Result, b: Result) -> (r: Result)
        requires
            merge_fits(a.tally(), b.tally()),
        ensures
            r.tally() == merge_tally(a.tally(), b.tally()),
    {
        let mut wins = a.wins;
        let ghost wa = wins@;
        let mut i: usize = 0;
        while i < wins.len()
            invariant
                wins@.len() == wa.len(),
                wa == a.wins@,
                i <= wins@.len(),
                merge_fits(a.tally(), b.tally()),
                forall|k: int| 0 <= k < i ==> #[trigger] wins@[k] as int == merge_tally(a.tally(), b.tally()).wins[k],
                forall|k: int| i <= k < wins@.len() ==> #[trigger] wins@[k] == wa[k],
            decreases wins@.len() - i,
        {
            if i < b.wins.len() {
                assert(merge_tally(a.tally(), b.tally()).wins[i as int] <= u64::MAX);
                assert(merge_tally(a.tally(), b.tally()).wins[i as int] == wa[i as int] + b.wins@[i as int]);
                let w = wins[i] + b.wins[i];
                wins.set(i, w);
            }
            i = i + 1;
        }
        let r = Result {
            rounds: a.rounds + b.rounds,
            wins,
            min_win_weight: if b.min_win_weight < a.min_win_weight { b.min_win_weight } else { a.min_win_weight },
            max_win_weight: if b.max_win_weight > a.max_win_weight { b.max_win_weight } else { a.max_win_weight },
            sum_win_weight: a.sum_win_weight + b.sum_win_weight,
            max_win_across_shards: if b.max_win_across_shards > a.max_win_across_shards {
                b.max_win_across_shards
            } else {
                a.max_win_across_shards
            },
        };
        assert(r.tally().wins =~= merge_tally(a.tally(), b.tally()).wins);
        r
    }
}

/// The merged counters of `x` and `y` fit their machine types.
pub open spec fn merge_fits(x: Tally, y: Tally) -> bool {
    let m = merge_tally(x, y);
    &&& m.rounds <= u64::MAX
    &&& m.sum_win_weight <= u128::MAX
    &&& forall|i: int| 0 <= i < m.wins.len() ==> #[trigger] m.wins[i] <= u64::MAX
}

/// Merging is commutative for tallies over the same validators.
pub proof fn lemma_merge_commutative(x: Tally, y: Tally)
    requires
        x.wins.len() == y.wins.len(),
    ensures
        merge_tally(x, y) == merge_tally(y, x),
{
    assert(merge_tally(x, y).wins =~= merge_tally(y, x).wins);
}

/// Merging is associative for tallies over the same validators.
pub proof fn lemma_merge_associative(x: Tally, y: Tally, z: Tally)
    requires
        x.wins.len() == y.wins.len(),
        y.wins.len() == z.wins.len(),
    ensures
        merge_tally(merge_tally(x, y), z) == merge_tally(x, merge_tally(y, z)),
{
    assert(merge_tally(merge_tally(x, y), z).wins =~= merge_tally(x, merge_tally(y, z)).wins);
}

/// The index of the first highest weight among the first `n` of `row`.
pub open spec fn winner_upto(row: Seq<u64>, n: int) -> int
    decreases n,
{
    if n <= 1 {
        0
    } else {
        let w = winner_upto(row, n - 1);
        if row[n - 1] > row[w] {
            n - 1
        } else {
            w
        }
    }
}

/// The validator that wins a shard: the first with the highest weight.
pub open spec fn winner_of(row: Seq<u64>) -> int {
    winner_upto(row, row.len() as int)
}

/// An empty tally over `n` validators.
pub open spec fn empty_tally(n: nat) -> Tally {
    Tally {
        rounds: 0,
        wins: Seq::new(n, |i: int| 0int),
        min_win_weight: u64::MAX,
        max_win_weight: 0,
        sum_win_weight: 0,
        max_win_across_shards: 0,
    }
}

/// `t` with one more win of `v` with weight `w`.
pub open spec fn add_win(t: Tally, v: int, w: u64) -> Tally {
    Tally {
        wins: t.wins.update(v, t.wins[v] + 1),
        min_win_weight: min_u64(t.min_win_weight, w),
        max_win_weight: max_u64(t.max_win_weight, w),
        sum_win_weight: t.sum_win_weight + w,
        ..t
    }
}

/// The wins over the first `k` shards of `rows`.
pub open spec fn shards_tally(rows: Seq<Seq<u64>>, n: nat, k: int) -> Tally
    decreases k,
{
    if k <= 0 {
        empty_tally(n)
    } else {
        let row = rows[k - 1];
        add_win(shards_tally(rows, n, k - 1), winner_of(row), row[winner_of(row)])
    }
}

/// The greatest of the first `k` of `s` (0 if none).
pub open spec fn seq_max(s: Seq<int>, k: int) -> int
    decreases k,
{
    if k <= 0 {
        0
    } else {
        let m = seq_max(s, k - 1);
        if s[k - 1] > m {
            s[k - 1]
        } else {
            m
        }
    }
}

/// The tally of one height over all shards of `rows` (`rows[s][v]` is the weight of
/// validator `v` on shard `s`).
pub open spec fn height_tally(rows: Seq<Seq<u64>>, n: nat) -> Tally {
    let t = shards_tally(rows, n, rows.len() as int);
    Tally {
        rounds: rows.len() as int,
        max_win_across_shards: seq_max(t.wins, n as int) as u64,
        ..t
    }
}

/// The rows of a weight matrix.
pub open spec fn rows_of(weights: Seq<Vec<u64>>) -> Seq<Seq<u64>> {
    Seq::new(weights.len(), |s: int| weights[s]@)
}

/// The winner of one shard.
fn shard_winner(row: &Vec<u64>) -> (r: usize)
    requires
        row@.len() >= 1,
    ensures
        r == winner_of(row@),
        r < row@.len(),
{
    let mut winner: usize = 0;
    let mut i: usize = 1;
    while i < row.len()
        invariant
            1 <= i <= row@.len(),
            winner == winner_upto(row@, i as int),
            winner < i,
        decreases row@.len() - i,
    {
        if row[i] > row[winner] {
            winner = i;
        }
        i = i + 1;
    }
    winner
}

/// Bounds on a tally of `k` shards.
proof fn lemma_shards_tally_bounds(rows: Seq<Seq<u64>>, n: nat, k: int)
    requires
        0 <= k <= rows.len(),
        forall|s: int| 0 <= s < rows.len() ==> #[trigger] rows[s].len() == n,
        n >= 1,
    ensures
        shards_tally(rows, n, k).wins.len() == n,
        forall|v: int| 0 <= v < n ==> 0 <= #[trigger] shards_tally(rows, n, k).wins[v] <= k,
        0 <= shards_tally(rows, n, k).sum_win_weight <= k * 0xFFFF_FFFF_FFFF_FFFFu64,
    decreases k,
{
    if k > 0 {
        lemma_shards_tally_bounds(rows, n, k - 1);
        let row = rows[k - 1];
        lemma_winner_in_range(row, row.len() as int);
        let t = shards_tally(rows, n, k - 1);
        assert(t.sum_win_weight + row[winner_of(row)] <= k * 0xFFFF_FFFF_FFFF_FFFFu64) by (nonlinear_arith)
            requires
                t.sum_win_weight <= (k - 1) * 0xFFFF_FFFF_FFFF_FFFFu64,
                row[winner_of(row)] <= 0xFFFF_FFFF_FFFF_FFFFu64,
        ;
    }
}

/// A winner is one of the row's validators.
proof fn lemma_winner_in_range(row: Seq<u64>, n: int)
    requires
        1 <= n <= row.len(),
    ensures
        0 <= winner_upto(row, n) < n,
    decreases n,
{
    if n > 1 {
        lemma_winner_in_range(row, n - 1);
    }
}

impl Result {
    /// The tally of one height: on each shard (a row of `weights`, one weight per validator)
    /// the first validator with the highest weight wins.
    pub fn simulate_height(weights: &Vec<Vec<u64>>, validators: usize) -> (r: Result)
        requires
            validators >= 1,
            weights@.len() <= u64::MAX,
            forall|s: int| 0 <= s < weights@.len() ==> #[trigger] weights@[s]@.len() == validators,
        ensures
            r.tally() == height_tally(rows_of(weights@), validators as nat),
    {
        let ghost rows = rows_of(weights@);
        let ghost n = validators as nat;
        let mut result = Result::new(validators);
        proof {
            assert(result.tally().wins =~= empty_tally(n).wins);
        }
        let mut s: usize = 0;
        while s < weights.len()
            invariant
                s <= weights@.len(),
                weights@.len() <= u64::MAX,
                rows == rows_of(weights@),
                n == validators as nat,
                n >= 1,
                forall|k: int| 0 <= k < weights@.len() ==> #[trigger] weights@[k]@.len() == validators,
                result.rounds == 0,
                result.max_win_across_shards == 0,
                ({
                    let t = shards_tally(rows, n, s as int);
                    &&& result.tally().wins == t.wins
                    &&& result.min_win_weight == t.min_win_weight
                    &&& result.max_win_weight == t.max_win_weight
                    &&& result.sum_win_weight == t.sum_win_weight
                }),
            decreases weights@.len() - s,
        {
            let row = &weights[s];
            proof {
                assert(forall|k: int| 0 <= k < rows.len() ==> #[trigger] rows[k].len() == n);
                lemma_shards_tally_bounds(rows, n, s as int);
                lemma_shards_tally_bounds(rows, n, s + 1);
                assert(rows[s as int] == row@);
            }
            let winner = shard_winner(row);
            let w = row[winner];
            let c = result.wins[winner];
            result.wins.set(winner, c + 1);
            result.min_win_weight = if w < result.min_win_weight { w } else { result.min_win_weight };
            result.max_win_weight = if w > result.max_win_weight { w } else { result.max_win_weight };
            result.sum_win_weight = result.sum_win_weight + w as u128;
            s = s + 1;
            proof {
                assert(result.tally().wins =~= shards_tally(rows, n, s as int).wins);
            }
        }
        let mut m: u64 = 0;
        let mut v: usize = 0;
        proof {
            lemma_shards_tally_bounds(rows, n, rows.len() as int);
        }
        while v < validators
            invariant
                v <= validators,
                n == validators as nat,
                result.wins@.len() == validators,
                result.tally().wins == shards_tally(rows, n, rows.len() as int).wins,
                forall|k: int| 0 <= k < n ==> #[trigger] result.tally().wins[k] <= rows.len(),
                rows.len() <= u64::MAX,
                m as int == seq_max(result.tally().wins, v as int),
            decreases validators - v,
        {
            assert(result.tally().wins[v as int] == result.wins@[v as int] as int);
            if result.wins[v] > m {
                m = result.wins[v];
            }
            v = v + 1;
        }
        result.rounds = weights.len() as u64;
        result.max_win_across_shards = m;
        result
    }
}

/// The bytes hashed by `random`: the seed, then shard, height and validator, big-endian.
pub open spec fn random_input(seed: Seq<u8>, height: u64, shard: u64, validator: u64) -> Seq<u8> {
    seed + be_bytes(shard) + be_bytes(height) + be_bytes(validator)
}

/// The random draw of `validator` at `height` on `shard`: the SHA3-256 digest of the seed
/// followed by the shard, the height and the validator, read as a little-endian integer.
pub fn random(seed: &Vec<u8>, height: u64, shard: u64, validator: u64) -> (r: Vec<u8>)
    ensures
        r@ == sha3_256_of(random_input(seed@, height, shard, validator)),
        r@.len() == 32,
{
    let mut input = seed.clone();
    push_be_bytes(&mut input, shard);
    push_be_bytes(&mut input, height);
    push_be_bytes(&mut input, validator);
    sha3_256_digest(&input)
}

/// The tag hashed in front of an epoch number to draw the epoch's seed.
pub open spec fn seed_tag() -> Seq<u8> {
    seq![115u8, 101u8, 101u8, 100u8]
}

/// The seed of an epoch: SHA3-256 of `"seed"` followed by the epoch's eight big-endian bytes.
pub fn epoch_seed(epoch: u64) -> (r: Vec<u8>)
    ensures
        r@ == sha3_256_of(seed_tag() + be_bytes(epoch)),
        r@.len() == 32,
{
    let mut input: Vec<u8> = vec![115u8, 101u8, 101u8, 100u8];
    assert(input@ =~= seed_tag());
    push_be_bytes(&mut input, epoch);
    sha3_256_digest(&input)
}

} // verus!
