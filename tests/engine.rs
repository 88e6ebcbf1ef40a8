use racoon_sim::event::{pop_earliest, Event, TimedEvent};
use racoon_sim::sim::{Config, Simulation};
use racoon_sim::weight::WEIGHT_ONE;

fn config_n(n: usize, latency: u64, finalization_weight: u64, stop_height: u64) -> Config {
    let mut c = config(latency, finalization_weight, stop_height);
    c.validators_count = n;
    c
}

fn config(latency: u64, finalization_weight: u64, stop_height: u64) -> Config {
    Config {
        validators_count: 2,
        stake_spread_factor: 0,
        vdf_block_ticks: 10,
        vdf_max_weight_ticks: 5,
        latency_ticks: latency,
        vdf_apply_retry_ticks: 3,
        finalization_weight,
        stop_height,
        step_stop: None,
    }
}

/// A fixed table of distinct weights below one, for `n` validators and heights up to `heights`.
fn weights(n: usize, heights: u64) -> Vec<Vec<u64>> {
    (0..n)
        .map(|v| {
            (0..heights)
                .map(|h| ((h * 7 + v as u64 * 3 + h * h) % 13 + 1) * (WEIGHT_ONE / 16))
                .collect()
        })
        .collect()
}

fn equal_powers(n: usize) -> Vec<u64> {
    vec![WEIGHT_ONE / n as u64; n]
}

fn finalized_height(sim: &Simulation, v: usize) -> u64 {
    let id = sim.validators[v].finalized_block_id;
    if id == 0 {
        0
    } else {
        sim.blocks[(id - 1) as usize].height
    }
}

#[test]
fn two_equal_validators_agree_and_finalize_every_height() {
    let mut sim = Simulation::new(config(0, 0, 30), equal_powers(2), weights(2, 40));
    sim.run();
    assert!(!sim.stop);
    assert!(sim.event_pool.is_empty());
    assert_eq!(sim.validators[0].current_head_id, sim.validators[1].current_head_id);
    let heights: Vec<u64> = sim.finalized_blocks.keys().copied().collect();
    assert!(!heights.is_empty());
    for (i, h) in heights.iter().enumerate() {
        assert_eq!(*h, i as u64 + 1);
    }
}

#[test]
fn premature_vdf_is_retried_once_after_the_retry_delay() {
    let mut sim = Simulation::new(config(0, 100, 30), equal_powers(2), weights(2, 40));
    sim.event_pool.clear();
    sim.create_block(0, 0, 0, 9);
    assert_eq!(sim.blocks.len(), 1);
    sim.event_pool.clear();
    sim.validators[0].current_head_id = 1;
    sim.validators[0].current_fork_weight = 9;
    sim.process_event_vdf_finished(5, 0, 1, 3, 7);
    assert_eq!(sim.blocks.len(), 1);
    assert_eq!(
        sim.event_pool,
        vec![TimedEvent {
            time: 8,
            validator_id: 0,
            event: Event::VdfFinished { input_block_id: 1, output_block_height: 3, weight: 7 },
        }]
    );
    assert_eq!(sim.validators[0].finished_vdf.get(&1), Some(&7));
}

#[test]
fn stale_vdf_is_dropped() {
    let mut sim = Simulation::new(config(0, 100, 30), equal_powers(2), weights(2, 40));
    sim.event_pool.clear();
    sim.create_block(0, 0, 0, 9);
    sim.event_pool.clear();
    sim.validators[1].current_head_id = 1;
    sim.validators[1].current_fork_weight = 9;
    sim.process_event_vdf_finished(5, 1, 4, 3, 7);
    assert_eq!(sim.blocks.len(), 1);
    assert!(sim.event_pool.is_empty());
}

#[test]
fn vdf_on_head_parent_builds_a_block() {
    let mut sim = Simulation::new(config(2, 100, 30), equal_powers(2), weights(2, 40));
    sim.event_pool.clear();
    sim.create_block(0, 0, 0, 9);
    sim.event_pool.clear();
    sim.validators[1].current_head_id = 1;
    sim.validators[1].current_fork_weight = 9;
    sim.process_event_vdf_finished(5, 1, 0, 2, 7);
    assert_eq!(sim.blocks.len(), 2);
    assert_eq!(sim.blocks[1].height, 2);
    assert_eq!(sim.blocks[1].previous_block_id, 1);
    assert_eq!(sim.blocks[1].validator_id, 1);
    assert_eq!(sim.event_pool.len(), 2);
    assert_eq!(sim.event_pool[0].time, 7);
    assert_eq!(sim.event_pool[1].time, 5);
}

#[test]
fn a_validator_creates_one_block_per_height() {
    let mut sim = Simulation::new(config(0, 100, 30), equal_powers(2), weights(2, 40));
    sim.create_block(0, 0, 0, 9);
    sim.create_block(1, 0, 0, 5);
    assert_eq!(sim.blocks.len(), 1);
    assert_eq!(sim.validators[0].latest_created_height, 1);
    sim.create_block(1, 1, 0, 5);
    assert_eq!(sim.blocks.len(), 2);
}

#[test]
fn identical_runs_are_identical() {
    let run = || {
        let mut sim = Simulation::new(config_n(4, 3, 1, 40), equal_powers(4), weights(4, 50));
        let mut trace = Vec::new();
        while let Some(e) = pop_earliest(&mut sim.event_pool) {
            trace.push(e);
            sim.process_event(e);
            if sim.stop {
                break;
            }
        }
        (trace, sim.blocks.clone(), sim.finalized_blocks.clone())
    };
    assert_eq!(run(), run());
}

#[test]
fn many_validators_never_diverge() {
    let n = 8;
    let mut sim = Simulation::new(config_n(n, 4, 2, 60), equal_powers(n), weights(n, 70));
    sim.run();
    assert!(!sim.stop);
    for u in 0..n {
        for v in 0..n {
            if finalized_height(&sim, u) == finalized_height(&sim, v) {
                assert_eq!(sim.validators[u].finalized_block_id, sim.validators[v].finalized_block_id);
            }
        }
        let id = sim.validators[u].finalized_block_id;
        if id != 0 {
            assert_eq!(sim.finalized_blocks.get(&finalized_height(&sim, u)), Some(&id));
        }
    }
}

#[test]
fn finalized_heights_never_decrease() {
    let n = 5;
    let mut sim = Simulation::new(config_n(n, 2, 1, 40), equal_powers(n), weights(n, 50));
    let mut last = vec![0u64; n];
    while sim.next() {
        for v in 0..n {
            let h = finalized_height(&sim, v);
            assert!(h >= last[v]);
            last[v] = h;
        }
        if sim.stop {
            break;
        }
    }
    assert!(last.iter().any(|h| *h > 0));
}

#[test]
fn parent_links_reach_genesis_in_height_steps() {
    let mut sim = Simulation::new(config_n(3, 1, 1, 30), equal_powers(3), weights(3, 40));
    sim.run();
    assert!(!sim.blocks.is_empty());
    for (i, b) in sim.blocks.iter().enumerate() {
        let id = i as u64 + 1;
        assert!(b.previous_block_id < id);
        let mut cur = id;
        for _ in 0..b.height {
            cur = sim.blocks[(cur - 1) as usize].previous_block_id;
        }
        assert_eq!(cur, 0);
    }
}

#[test]
fn step_stop_bounds_the_run() {
    let mut c = config(0, 0, 30);
    c.step_stop = Some(0);
    let mut sim = Simulation::new(c, equal_powers(2), weights(2, 40));
    assert_eq!(sim.run(), 1);
    // One start signal applied: two genesis VDFs scheduled, one start signal left.
    assert_eq!(sim.event_pool.len(), 3);
}

#[test]
fn earliest_event_comes_first_and_ties_keep_order() {
    let e = |time: u64, v: usize| TimedEvent { time, validator_id: v, event: Event::BlockReceived { block_id: 0 } };
    let mut pool = vec![e(5, 0), e(2, 1), e(2, 2), e(9, 3)];
    assert_eq!(pop_earliest(&mut pool), Some(e(2, 1)));
    assert_eq!(pop_earliest(&mut pool), Some(e(2, 2)));
    assert_eq!(pop_earliest(&mut pool), Some(e(5, 0)));
    assert_eq!(pop_earliest(&mut pool), Some(e(9, 3)));
    assert_eq!(pop_earliest(&mut pool), None);
}

#[test]
fn divergent_fork_is_ignored() {
    let mut sim = Simulation::new(config(0, 100, 30), equal_powers(2), weights(2, 40));
    sim.event_pool.clear();
    sim.create_block(0, 0, 0, 9);
    sim.create_block(0, 1, 0, 8);
    sim.event_pool.clear();
    // Validator 0 has finalized block 1, as the index records.
    sim.validators[0].finalized_block_id = 1;
    sim.validators[0].current_head_id = 1;
    sim.finalized_blocks.insert(1, 1);
    sim.finalized_log.push((1, 1));
    sim.process_event_block_received(1, 0, 2);
    assert_eq!(sim.validators[0].current_head_id, 1);
    assert!(sim.event_pool.is_empty());
}

#[test]
fn heavier_fork_becomes_head_and_starts_a_vdf() {
    let mut sim = Simulation::new(config(0, 100, 30), equal_powers(2), weights(2, 40));
    sim.event_pool.clear();
    sim.create_block(0, 0, 0, 9);
    sim.event_pool.clear();
    sim.process_event_block_received(4, 1, 1);
    assert_eq!(sim.validators[1].current_head_id, 1);
    assert_eq!(sim.validators[1].current_fork_weight, 9);
    assert_eq!(sim.event_pool.len(), 1);
    match sim.event_pool[0].event {
        Event::VdfFinished { input_block_id, output_block_height, .. } => {
            assert_eq!(input_block_id, 1);
            assert_eq!(output_block_height, 3);
        }
        _ => panic!("expected a VDF"),
    }
}

#[test]
fn report_counts_wins_and_block_times() {
    let mut sim = Simulation::new(config(0, 0, 12), equal_powers(2), weights(2, 20));
    sim.run();
    let wins = sim.validator_wins();
    assert_eq!(wins.iter().sum::<u64>() as usize, sim.finalized_log.len());
    let stats = sim.block_time_stats();
    assert_eq!(stats.all.count as usize, sim.finalized_log.len() - 1);
    assert_eq!(stats.all.count, stats.even_odd.count + stats.odd_even.count);
    assert!(stats.all.min <= stats.all.max);
}

#[test]
fn fork_weight_is_the_sum_above_the_finalized_block() {
    let n = 4;
    let mut sim = Simulation::new(config_n(n, 2, 3, 40), equal_powers(n), weights(n, 50));
    let mut steps = 0;
    while sim.next() && !sim.stop && steps < 5000 {
        steps += 1;
        for v in 0..n {
            let fin = sim.validators[v].finalized_block_id;
            let mut cur = sim.validators[v].current_head_id;
            let mut sum: u128 = 0;
            while cur != fin {
                assert_ne!(cur, 0);
                let b = sim.blocks[(cur - 1) as usize];
                sum += b.weight as u128;
                cur = b.previous_block_id;
            }
            assert_eq!(sum, sim.validators[v].current_fork_weight);
        }
    }
    assert!(steps > 0);
}

#[test]
fn run_drains_the_pool_and_counts_its_steps() {
    let mut sim = Simulation::new(config(0, 0, 10), equal_powers(2), weights(2, 20));
    let steps = sim.run();
    assert!(sim.event_pool.is_empty());
    assert!(steps > 2);
    let log_heights: Vec<u64> = sim.finalized_log.iter().map(|e| e.0).collect();
    let index_heights: Vec<u64> = sim.finalized_blocks.keys().copied().collect();
    assert_eq!(log_heights, index_heights);
}

#[test]
fn finalizing_against_another_block_stops_the_run() {
    let mut sim = Simulation::new(config(0, 0, 30), equal_powers(2), weights(2, 40));
    sim.event_pool.clear();
    sim.create_block(0, 0, 0, 9);
    sim.create_block(0, 1, 0, 8);
    sim.event_pool.clear();
    // Validator 1 finalizes block 2 at height 1 first.
    sim.process_event_block_received(1, 1, 2);
    assert_eq!(sim.finalized_blocks.get(&1), Some(&2));
    assert!(!sim.stop);
    // Validator 0 then adopts block 1 and would finalize it at the same height.
    sim.process_event_block_received(1, 0, 1);
    assert!(sim.stop);
    assert_eq!(sim.finalized_blocks.get(&1), Some(&2));
    assert_eq!(sim.validators[0].finalized_block_id, 0);
    assert_eq!(sim.validators[0].current_head_id, 1);
}

#[test]
fn adopted_head_builds_on_a_vdf_finished_on_its_parent() {
    let mut sim = Simulation::new(config(3, 100, 30), equal_powers(2), weights(2, 40));
    sim.event_pool.clear();
    sim.create_block(0, 0, 0, 9);
    sim.event_pool.clear();
    sim.validators[1].finished_vdf.insert(0, 11);
    sim.process_event_block_received(6, 1, 1);
    assert_eq!(sim.validators[1].current_head_id, 1);
    assert_eq!(sim.blocks.len(), 2);
    assert_eq!(sim.blocks[1].height, 2);
    assert_eq!(sim.blocks[1].previous_block_id, 1);
    assert_eq!(sim.blocks[1].weight, 11);
    assert_eq!(sim.blocks[1].time, 6);
    // The forward VDF, then the new block's gossip.
    assert_eq!(sim.event_pool.len(), 3);
    assert_eq!(sim.event_pool[1].time, 9);
    assert_eq!(sim.event_pool[2].time, 6);
}
