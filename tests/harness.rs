use racoon_sim::harness::{epoch_seed, random, Result};
use sha3::Digest;

fn tally(rounds: u64, wins: Vec<u64>, min: u64, max: u64, sum: u128, across: u64) -> Result {
    Result {
        rounds,
        wins,
        min_win_weight: min,
        max_win_weight: max,
        sum_win_weight: sum,
        max_win_across_shards: across,
    }
}

fn fields(r: &Result) -> (u64, Vec<u64>, u64, u64, u128, u64) {
    (r.rounds, r.wins.clone(), r.min_win_weight, r.max_win_weight, r.sum_win_weight, r.max_win_across_shards)
}

#[test]
fn new_tally_is_empty() {
    let r = Result::new(3);
    assert_eq!(fields(&r), (0, vec![0, 0, 0], u64::MAX, 0, 0, 0));
}

#[test]
fn merge_adds_counters_and_combines_extremes() {
    let a = tally(4, vec![1, 3], 10, 50, 100, 2);
    let b = tally(6, vec![5, 1], 7, 40, 90, 3);
    let r = Result::merge(a, b);
    assert_eq!(fields(&r), (10, vec![6, 4], 7, 50, 190, 3));
}

#[test]
fn merge_order_does_not_matter() {
    let mk = || (tally(4, vec![1, 3], 10, 50, 100, 2), tally(6, vec![5, 1], 7, 40, 90, 3), tally(1, vec![0, 1], 30, 30, 30, 1));
    let (a, b, c) = mk();
    let left = Result::merge(Result::merge(a, b), c);
    let (a, b, c) = mk();
    let right = Result::merge(a, Result::merge(c, b));
    assert_eq!(fields(&left), fields(&right));
}

#[test]
fn merge_with_empty_tally_changes_nothing() {
    let a = tally(4, vec![1, 3], 10, 50, 100, 2);
    let r = Result::merge(a, Result::new(2));
    assert_eq!(fields(&r), (4, vec![1, 3], 10, 50, 100, 2));
}

#[test]
fn heaviest_validator_wins_each_shard_first_on_ties() {
    let weights = vec![vec![5, 9, 2], vec![7, 7, 1], vec![1, 2, 8], vec![3, 9, 9]];
    let r = Result::simulate_height(&weights, 3);
    assert_eq!(fields(&r), (4, vec![1, 2, 1], 7, 9, 9 + 7 + 8 + 9, 2));
}

#[test]
fn height_without_shards_draws_nothing() {
    let r = Result::simulate_height(&vec![], 2);
    assert_eq!(fields(&r), (0, vec![0, 0], u64::MAX, 0, 0, 0));
}

#[test]
fn random_hashes_seed_shard_height_validator() {
    let mut input = b"abc".to_vec();
    input.extend_from_slice(&2u64.to_be_bytes());
    input.extend_from_slice(&1u64.to_be_bytes());
    input.extend_from_slice(&9u64.to_be_bytes());
    assert_eq!(random(&b"abc".to_vec(), 1, 2, 9), sha3::Sha3_256::digest(&input).to_vec());
}

#[test]
fn epoch_seed_hashes_tag_and_epoch() {
    let mut input = b"seed".to_vec();
    input.extend_from_slice(&3u64.to_be_bytes());
    assert_eq!(epoch_seed(3), sha3::Sha3_256::digest(&input).to_vec());
    assert_ne!(epoch_seed(3), epoch_seed(4));
}
