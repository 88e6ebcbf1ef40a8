use sha3::Digest;
use vstd::prelude::*;
use vstd::seq_lib::*;
use vstd::multiset::*;

verus! {

/// Bits of mantissa of every float computed by the weight formula.
pub const FLOAT_PRECISION: u32 = 53;

/// Weights and stake powers are fractions `n / 2^32`: a weight below one, a power at most one.
pub const WEIGHT_ONE: u64 = 0x1_0000_0000;

/// The BLAKE3 digest of a byte string.
pub uninterp spec fn blake3_of(data: Seq<u8>) -> Seq<u8>;

/// The SHA3-256 digest of a byte string.
pub uninterp spec fn sha3_256_of(data: Seq<u8>) -> Seq<u8>;

/// Relies on `blake3::Hasher::update` and `finalize`: the 32-byte BLAKE3 digest of `data`.
#[verifier::external_body]
fn blake3_digest(data: &Vec<u8>) -> (r: Vec<u8>)
    ensures
        r@ == blake3_of(data@),
        r@.len() == 32,
{
    let mut hasher = blake3::Hasher::new();
    hasher.update(data.as_slice());
    hasher.finalize().as_bytes().to_vec()
}

/// Relies on `sha3::Sha3_256`: the 32-byte SHA3-256 digest of `data`.
#[verifier::external_body]
pub(crate) fn sha3_256_digest(data: &Vec<u8>) -> (r: Vec<u8>)
    ensures
        r@ == sha3_256_of(data@),
        r@.len() == 32,
{
    sha3::Sha3_256::digest(data.as_slice()).to_vec()
}


/// The eight bytes of `x`, most significant first.
pub open spec fn be_bytes(x: u64) -> Seq<u8> {
    seq![
        (x >> 56u64) as u8,
        (x >> 48u64) as u8,
        (x >> 40u64) as u8,
        (x >> 32u64) as u8,
        (x >> 24u64) as u8,
        (x >> 16u64) as u8,
        (x >> 8u64) as u8,
        x as u8,
    ]
}

/// Appends the big-endian bytes of `x` to `v`.
pub(crate) fn push_be_bytes(v: &mut Vec<u8>, x: u64)
    ensures
        final(v)@ == old(v)@ + be_bytes(x),
{
    v.push((x >> 56u64) as u8);
    v.push((x >> 48u64) as u8);
    v.push((x >> 40u64) as u8);
    v.push((x >> 32u64) as u8);
    v.push((x >> 24u64) as u8);
    v.push((x >> 16u64) as u8);
    v.push((x >> 8u64) as u8);
    v.push(x as u8);
    assert(final(v)@ =~= old(v)@ + be_bytes(x));
}

/// The bytes hashed to draw the weight of a block: the seed, then the shard, the height and
/// the validator, each as eight big-endian bytes.
pub open spec fn block_hash_input(seed: Seq<u8>, shard: u64, height: u64, validator: u64) -> Seq<u8> {
    seed + be_bytes(shard) + be_bytes(height) + be_bytes(validator)
}

/// The digest from which the weight of a block of `validator` at `height` is drawn.
pub fn block_random_digest(seed: &Vec<u8>, shard: u64, height: u64, validator: u64) -> (r: Vec<u8>)
    ensures
        r@ == blake3_of(block_hash_input(seed@, shard, height, validator)),
        r@.len() == 32,
{
    let mut input = seed.clone();
    push_be_bytes(&mut input, shard);
    push_be_bytes(&mut input, height);
    push_be_bytes(&mut input, validator);
    blake3_digest(&input)
}

/// The tag hashed in front of a validator id to draw its stake.
pub open spec fn stake_tag() -> Seq<u8> {
    seq![118u8, 97u8, 108u8, 105u8, 100u8, 97u8, 116u8, 111u8, 114u8]
}

/// The digest from which the stake of validator `id` is drawn: SHA3-256 of `"validator"`
/// followed by the id's eight big-endian bytes.
pub fn stake_digest(id: u64) -> (r: Vec<u8>)
    ensures
        r@ == sha3_256_of(stake_tag() + be_bytes(id)),
        r@.len() == 32,
{
    let mut input: Vec<u8> = vec![118u8, 97u8, 108u8, 105u8, 100u8, 97u8, 116u8, 111u8, 114u8];
    assert(input@ =~= stake_tag());
    push_be_bytes(&mut input, id);
    sha3_256_digest(&input)
}

/// The extra ticks a VDF takes for a draw of `weight`: `max_weight_ticks * (1 - weight)`,
/// rounded down and saturated at `u32::MAX`. A weight at or above one adds nothing.
pub open spec fn weight_ticks(weight: u64, max_weight_ticks: u64) -> int {
    if weight >= WEIGHT_ONE {
        0
    } else {
        let t = (max_weight_ticks as int) * ((WEIGHT_ONE - weight) as int) / (WEIGHT_ONE as int);
        if t > u32::MAX as int { u32::MAX as int } else { t }
    }
}

/// Ticks of VDF depth: one block above a real block, `output_height` blocks above genesis.
pub open spec fn vdf_depth(input_block_id: u64, output_height: u64) -> int {
    if input_block_id == 0 { output_height as int } else { 1 }
}

/// Saturates `x` at `u64::MAX`.
pub open spec fn sat(x: int) -> int {
    if x > u64::MAX as int { u64::MAX as int } else { x }
}

/// How long a VDF takes: `depth * block_ticks` plus the weight's share, saturated at `u64::MAX`.
pub open spec fn vdf_delay_spec(
    weight: u64,
    input_block_id: u64,
    output_height: u64,
    block_ticks: u64,
    max_weight_ticks: u64,
) -> int {
    sat(sat(vdf_depth(input_block_id, output_height) * block_ticks) + weight_ticks(weight, max_weight_ticks))
}

/// A product of two bounded naturals is bounded by the product of the bounds.
proof fn lemma_bounded_product(a: int, b: int, ma: int, mb: int)
    requires
        0 <= a <= ma,
        0 <= b <= mb,
    ensures
        0 <= a * b <= ma * mb,
{
    assert(0 <= a * b <= ma * mb) by (nonlinear_arith)
        requires
            0 <= a <= ma,
            0 <= b <= mb,
    ;
}

/// The number of ticks a VDF rooted at `input_block_id` and drawing `weight` takes.
pub fn vdf_delay(
    weight: u64,
    input_block_id: u64,
    output_height: u64,
    block_ticks: u64,
    max_weight_ticks: u64,
) -> (r: u64)
    ensures
        r == vdf_delay_spec(weight, input_block_id, output_height, block_ticks, max_weight_ticks),
{
    let depth: u64 = if input_block_id == 0 { output_height } else { 1 };
    proof {
        lemma_bounded_product(depth as int, block_ticks as int, u64::MAX as int, u64::MAX as int);
    }
    let wide: u128 = (depth as u128) * (block_ticks as u128);
    let base: u64 = if wide > 0xFFFF_FFFF_FFFF_FFFFu128 { u64::MAX } else { wide as u64 };
    let extra: u64 = if weight >= WEIGHT_ONE {
        0
    } else {
        proof {
            lemma_bounded_product(
                max_weight_ticks as int,
                (WEIGHT_ONE - weight) as int,
                u64::MAX as int,
                WEIGHT_ONE as int,
            );
        }
        let prod: u128 = (max_weight_ticks as u128) * ((WEIGHT_ONE - weight) as u128);
        let t: u128 = prod / (WEIGHT_ONE as u128);
        if t > 0xFFFF_FFFFu128 { 0xFFFF_FFFFu64 } else { t as u64 }
    };
    base.saturating_add(extra)
}

/// Sum of a sequence of stakes.
pub open spec fn stake_sum(s: Seq<u64>) -> int
    decreases s.len(),
{
    if s.len() == 0 { 0 } else { stake_sum(s.drop_last()) + s.last() }
}

/// The power of a stake `s` out of a total `total`: `s / total` as a fraction of 2^32,
/// rounded down, but never below 2^-32 so that every validator has some power.
pub open spec fn power_of(s: u64, total: int) -> int {
    let p = (s as int) * (WEIGHT_ONE as int) / total;
    if p == 0 { 1 } else { p }
}

/// Stakes that can be normalised: each is at least one.
pub open spec fn stakes_valid(s: Seq<u64>) -> bool {
    forall|i: int| 0 <= i < s.len() ==> 1 <= #[trigger] s[i]
}

/// `s` is ordered from highest to lowest.
pub open spec fn descending(s: Seq<u64>) -> bool {
    forall|i: int, j: int| 0 <= i < j < s.len() ==> s[i] >= s[j]
}

/// Returns the stakes ordered from highest to lowest.
pub fn sort_descending(v: &Vec<u64>) -> (r: Vec<u64>)
    ensures
        descending(r@),
        r@.to_multiset() == v@.to_multiset(),
{
    broadcast use group_to_multiset_ensures;

    let mut work = v.clone();
    let mut out: Vec<u64> = Vec::new();
    proof {
        assert(out@.to_multiset() =~= Multiset::empty());
        assert(work@.to_multiset().add(out@.to_multiset()) =~= v@.to_multiset());
    }
    while work.len() > 0
        invariant
            work@.to_multiset().add(out@.to_multiset()) == v@.to_multiset(),
            descending(out@),
            forall|i: int, j: int|
                #![trigger out@[i], work@[j]]
                0 <= i < out@.len() && 0 <= j < work@.len() ==> out@[i] >= work@[j],
        decreases work.len(),
    {
        let mut best: usize = 0;
        let mut i: usize = 1;
        while i < work.len()
            invariant
                1 <= i <= work.len(),
                best < i,
                forall|j: int| 0 <= j < i ==> work@[best as int] >= #[trigger] work@[j],
            decreases work.len() - i,
        {
            if work[i] > work[best] {
                best = i;
            }
            i = i + 1;
        }
        let ghost w0 = work@;
        let ghost o0 = out@;
        let x = work.remove(best);
        out.push(x);
        proof {
            to_multiset_remove(w0, best as int);
            to_multiset_build(o0, x);
            assert(w0[best as int] == x);
            assert(w0.contains(x));
            w0.to_multiset_ensures();
            assert(w0.to_multiset().count(x) > 0);
            assert(work@.to_multiset().add(out@.to_multiset()) =~= v@.to_multiset());
            assert forall|i: int, j: int|
                #![trigger out@[i], work@[j]]
                0 <= i < out@.len() && 0 <= j < work@.len() implies out@[i] >= work@[j] by {
                if j < best {
                    assert(work@[j] == w0[j]);
                } else {
                    assert(work@[j] == w0[j + 1]);
                }
            }
        }
    }
    proof {
        assert(work@.to_multiset() =~= Multiset::empty());
        assert(out@.to_multiset() =~= v@.to_multiset());
    }
    out
}

/// The stake powers of a validator set: the stakes ordered from highest to lowest, each
/// divided by their total and written as a fraction of 2^32 (rounded down, at least 2^-32).
/// With two validators or more every power lies strictly between zero and one.
pub fn powers_from_stakes(stakes: &Vec<u64>) -> (r: Vec<u64>)
    requires
        stakes_valid(stakes@),
    ensures
        r@.len() == stakes@.len(),
        exists|sorted: Seq<u64>|
            #![trigger sorted.to_multiset()]
            descending(sorted) && sorted.to_multiset() == stakes@.to_multiset() && sorted.len()
                == r@.len() && forall|i: int|
                0 <= i < r@.len() ==> r@[i] == power_of(#[trigger] sorted[i], stake_sum(stakes@)),
        stakes@.len() >= 2 ==> forall|i: int| 0 <= i < r@.len() ==> 0 < #[trigger] r@[i] < WEIGHT_ONE,
{
    let mut total: u128 = 0;
    let mut i: usize = 0;
    while i < stakes.len()
        invariant
            i <= stakes.len(),
            stakes_valid(stakes@),
            total == stake_sum(stakes@.subrange(0, i as int)),
            total <= i * 0xFFFF_FFFF_FFFF_FFFFu128,
        decreases stakes.len() - i,
    {
        assert(stakes@.subrange(0, i + 1).drop_last() =~= stakes@.subrange(0, i as int));
        proof {
            let x = stakes@[i as int];
            assert(total + x <= (i + 1) * 0xFFFF_FFFF_FFFF_FFFFu128) by (nonlinear_arith)
                requires
                    total <= i * 0xFFFF_FFFF_FFFF_FFFFu128,
                    x <= 0xFFFF_FFFF_FFFF_FFFFu64,
            ;
            assert((i + 1) * 0xFFFF_FFFF_FFFF_FFFFu128 <= 0xFFFF_FFFF_FFFF_FFFFu128 * 0xFFFF_FFFF_FFFF_FFFFu128)
                by (nonlinear_arith)
                requires
                    i + 1 <= 0xFFFF_FFFF_FFFF_FFFFu64,
            ;
        }
        total = total + stakes[i] as u128;
        i = i + 1;
    }
    assert(stakes@.subrange(0, stakes.len() as int) =~= stakes@);
    let sorted = sort_descending(stakes);
    proof {
        broadcast use group_to_multiset_ensures;
        assert(sorted@.to_multiset().len() == sorted@.len());
        assert(stakes@.to_multiset().len() == stakes@.len());
        assert forall|k: int| 0 <= k < sorted@.len() implies 1 <= #[trigger] sorted@[k] by {
            assert(sorted@.to_multiset().count(sorted@[k]) > 0);
            assert(stakes@.to_multiset().count(sorted@[k]) > 0);
        }
    }
    let mut r: Vec<u64> = Vec::new();
    let mut k: usize = 0;
    while k < sorted.len()
        invariant
            k <= sorted.len(),
            r@.len() == k,
            sorted@.len() == stakes@.len(),
            stakes_valid(stakes@),
            descending(sorted@),
            sorted@.to_multiset() == stakes@.to_multiset(),
            total == stake_sum(stakes@),
            forall|m: int| 0 <= m < sorted@.len() ==> 1 <= #[trigger] sorted@[m],
            forall|m: int| 0 <= m < k ==> r@[m] == power_of(#[trigger] sorted@[m], stake_sum(stakes@)),
            stakes@.len() >= 2 ==> forall|m: int| 0 <= m < k ==> 0 < #[trigger] r@[m] < WEIGHT_ONE,
        decreases sorted.len() - k,
    {
        let s = sorted[k];
        proof {
            lemma_sum_bounds(stakes@, sorted@, k as int);
            lemma_bounded_product(s as int, WEIGHT_ONE as int, u64::MAX as int, WEIGHT_ONE as int);
        }
        let q: u128 = (s as u128) * (WEIGHT_ONE as u128) / total;
        proof {
            assert(q <= WEIGHT_ONE) by (nonlinear_arith)
                requires
                    q == (s as int) * (WEIGHT_ONE as int) / (total as int),
                    1 <= s <= total,
            ;
            if stakes@.len() >= 2 {
                lemma_stake_below_sum(stakes@, sorted@, k as int);
                assert(q < WEIGHT_ONE) by (nonlinear_arith)
                    requires
                        q == (s as int) * (WEIGHT_ONE as int) / (total as int),
                        1 <= s < total,
                ;
            }
        }
        let p: u128 = if q == 0 { 1 } else { q };
        r.push(p as u64);
        k = k + 1;
    }
    r
}

/// A stake of a valid set is at least one and at most the set's total.
proof fn lemma_sum_bounds(stakes: Seq<u64>, sorted: Seq<u64>, k: int)
    requires
        stakes_valid(stakes),
        sorted.to_multiset() == stakes.to_multiset(),
        0 <= k < sorted.len(),
    ensures
        1 <= sorted[k] <= stake_sum(stakes),
{
    broadcast use group_to_multiset_ensures;

    assert(sorted.to_multiset().count(sorted[k]) > 0);
    assert(stakes.to_multiset().count(sorted[k]) > 0);
    let j = choose|j: int| 0 <= j < stakes.len() && stakes[j] == sorted[k];
    lemma_stake_le_sum(stakes, j);
}

/// With two stakes or more, each is below the total.
proof fn lemma_stake_below_sum(stakes: Seq<u64>, sorted: Seq<u64>, k: int)
    requires
        stakes_valid(stakes),
        stakes.len() >= 2,
        sorted.to_multiset() == stakes.to_multiset(),
        0 <= k < sorted.len(),
    ensures
        sorted[k] < stake_sum(stakes),
{
    broadcast use group_to_multiset_ensures;

    assert(sorted.to_multiset().count(sorted[k]) > 0);
    assert(stakes.to_multiset().count(sorted[k]) > 0);
    let j = choose|j: int| 0 <= j < stakes.len() && stakes[j] == sorted[k];
    let d = stakes.drop_last();
    assert(stakes_valid(d));
    if j < stakes.len() - 1 {
        lemma_stake_le_sum(d, j);
    } else {
        lemma_stake_le_sum(d, 0);
    }
}

/// Each stake of a valid set is at most the set's total.
proof fn lemma_stake_le_sum(stakes: Seq<u64>, j: int)
    requires
        stakes_valid(stakes),
        0 <= j < stakes.len(),
    ensures
        stakes[j] <= stake_sum(stakes),
        stake_sum(stakes) >= 0,
    decreases stakes.len(),
{
    lemma_sum_nonneg(stakes.drop_last());
    if j < stakes.len() - 1 {
        lemma_stake_le_sum(stakes.drop_last(), j);
    }
}

/// The total of stakes is not negative.
proof fn lemma_sum_nonneg(stakes: Seq<u64>)
    ensures
        stake_sum(stakes) >= 0,
    decreases stakes.len(),
{
    if stakes.len() > 0 {
        lemma_sum_nonneg(stakes.drop_last());
    }
}

} // verus!
