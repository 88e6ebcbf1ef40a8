use racoon_sim::weight::{
    block_random_digest, powers_from_stakes, sort_descending, stake_digest, vdf_delay, WEIGHT_ONE,
};
use sha3::Digest;

#[test]
fn block_digest_hashes_seed_shard_height_validator() {
    let d = block_random_digest(&b"seed".to_vec(), 0, 7, 3);
    let mut input = b"seed".to_vec();
    input.extend_from_slice(&0u64.to_be_bytes());
    input.extend_from_slice(&7u64.to_be_bytes());
    input.extend_from_slice(&3u64.to_be_bytes());
    assert_eq!(d, blake3::hash(&input).as_bytes().to_vec());
    assert_ne!(d, block_random_digest(&b"seed".to_vec(), 0, 7, 4));
}

#[test]
fn stake_digest_hashes_tag_and_id() {
    let mut input = b"validator".to_vec();
    input.extend_from_slice(&5u64.to_be_bytes());
    assert_eq!(stake_digest(5), sha3::Sha3_256::digest(&input).to_vec());
    assert_eq!(stake_digest(5).len(), 32);
}

#[test]
fn vdf_delay_on_a_real_block() {
    // one block of depth, half a weight left: 10 + 5 * 1/2 rounded down.
    assert_eq!(vdf_delay(WEIGHT_ONE / 2, 4, 6, 10, 5), 12);
    assert_eq!(vdf_delay(0, 4, 6, 10, 5), 15);
    assert_eq!(vdf_delay(WEIGHT_ONE - 1, 4, 6, 10, 5), 10);
}

#[test]
fn vdf_delay_on_genesis_counts_the_height() {
    assert_eq!(vdf_delay(WEIGHT_ONE / 4, 0, 2, 10, 8), 26);
    assert_eq!(vdf_delay(WEIGHT_ONE / 4, 0, 1, 10, 8), 16);
}

#[test]
fn vdf_delay_saturates() {
    assert_eq!(vdf_delay(0, 0, u64::MAX, 2, 0), u64::MAX);
    assert_eq!(vdf_delay(0, 3, 5, 1, u64::MAX), 1 + u32::MAX as u64);
}

#[test]
fn heavier_weight_finishes_sooner() {
    assert!(vdf_delay(WEIGHT_ONE / 8 * 7, 3, 5, 10, 100) < vdf_delay(WEIGHT_ONE / 8, 3, 5, 10, 100));
}

#[test]
fn sort_puts_highest_first() {
    assert_eq!(sort_descending(&vec![3, 9, 1, 9, 4]), vec![9, 9, 4, 3, 1]);
    assert_eq!(sort_descending(&vec![]), Vec::<u64>::new());
}

#[test]
fn powers_are_sorted_shares() {
    let p = powers_from_stakes(&vec![1, 3, 4]);
    assert_eq!(p, vec![WEIGHT_ONE / 2, WEIGHT_ONE / 8 * 3, WEIGHT_ONE / 8]);
    let p = powers_from_stakes(&vec![1, 2]);
    assert_eq!(p, vec![WEIGHT_ONE / 3 * 2, WEIGHT_ONE / 3]);
}

#[test]
fn single_validator_holds_all_power() {
    assert_eq!(powers_from_stakes(&vec![70000]), vec![WEIGHT_ONE]);
}

#[test]
fn tiny_stake_keeps_some_power() {
    let big = u32::MAX as u64;
    let p = powers_from_stakes(&vec![1, big, big]);
    assert_eq!(p[2], 1);
    assert!(p.iter().all(|x| *x > 0 && *x < WEIGHT_ONE));
}
