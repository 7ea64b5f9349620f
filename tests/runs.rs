use rand::SeedableRng;
use rand_chacha::ChaCha8Rng;
use ts_loot::{generate_it, generate_ts, loot_counts, ConfigError, Orchestrator, Run};

fn batch(seed: Option<u64>, run_count: u16, player_count: usize) -> Vec<Run> {
    let mut orch = Orchestrator::new(seed, run_count, player_count).unwrap();
    let mut runs = Vec::new();
    while let Some(run) = orch.next_run() {
        runs.push(run);
    }
    runs
}

fn same_runs(a: &[Run], b: &[Run]) -> bool {
    a.len() == b.len()
        && a.iter().zip(b.iter()).all(|(x, y)| {
            x.colors == y.colors && x.items == y.items && x.player_count == y.player_count
        })
}

#[test]
fn orchestrator_rejects_bad_player_counts() {
    assert_eq!(
        Orchestrator::new(Some(1), 10, 0).err(),
        Some(ConfigError::InvalidPlayerCount(0))
    );
    assert_eq!(
        Orchestrator::new(Some(1), 10, 5).err(),
        Some(ConfigError::InvalidPlayerCount(5))
    );
    assert_eq!(
        Orchestrator::new(None, 0, 5).err(),
        Some(ConfigError::InvalidPlayerCount(5))
    );
}

#[test]
fn orchestrator_rejects_empty_batch() {
    assert_eq!(
        Orchestrator::new(Some(1), 0, 2).err(),
        Some(ConfigError::InvalidRunCount)
    );
}

#[test]
fn orchestrator_yields_exactly_run_count_runs() {
    let mut orch = Orchestrator::new(Some(5), 3, 2).unwrap();
    assert_eq!(orch.player_count(), 2);
    assert_eq!(orch.remaining(), 3);
    assert!(orch.next_run().is_some());
    assert!(orch.next_run().is_some());
    assert_eq!(orch.remaining(), 1);
    assert!(orch.next_run().is_some());
    assert!(orch.next_run().is_none());
    assert_eq!(orch.remaining(), 0);
}

#[test]
fn single_player_run_end_to_end() {
    let runs = batch(Some(12345), 1, 1);
    assert_eq!(runs.len(), 1);
    let run = &runs[0];
    assert_eq!(run.colors.len(), 6);
    assert_eq!(run.player_count, 1);
    assert_eq!(run.items.len(), 22);
    let slots = run.item_slots();
    let per_sphere: Vec<usize> = (0..6)
        .map(|t| slots[t * 5..t * 5 + 5].iter().filter(|s| s.is_some()).count())
        .collect();
    assert_eq!(per_sphere, vec![5, 5, 3, 3, 3, 3]);
    let mut sorted = run.items.clone();
    sorted.sort();
    sorted.dedup();
    assert_eq!(sorted.len(), 22);

    let again = batch(Some(12345), 1, 1);
    assert!(same_runs(&runs, &again));
}

#[test]
fn same_seed_same_batch() {
    for player_count in 1..=4usize {
        let a = batch(Some(99), 20, player_count);
        let b = batch(Some(99), 20, player_count);
        assert_eq!(a.len(), 20);
        assert!(same_runs(&a, &b));
    }
    let a = batch(None, 5, 3);
    let b = batch(None, 5, 3);
    assert!(same_runs(&a, &b));
}

#[test]
fn stream_flows_across_runs() {
    let runs = batch(Some(8), 10, 4);
    let first = &runs[0];
    assert!(runs[1..]
        .iter()
        .any(|r| r.colors != first.colors || r.items != first.items));
}

#[test]
fn every_run_has_six_colors() {
    for player_count in 1..=4usize {
        for seed in 0..10u64 {
            for run in batch(Some(seed), 5, player_count) {
                assert_eq!(run.colors.len(), 6);
            }
        }
    }
}

#[test]
fn item_slots_fixed_width_layout() {
    for player_count in 1..=4usize {
        let counts = loot_counts(player_count).unwrap();
        let run = &batch(Some(4), 1, player_count)[0];
        let slots = run.item_slots();
        assert_eq!(slots.len(), 30);
        let mut next = 0;
        for t in 0..6 {
            for i in 0..5 {
                if i < counts[t] {
                    assert_eq!(slots[t * 5 + i], Some(run.items[next]));
                    next += 1;
                } else {
                    assert_eq!(slots[t * 5 + i], None);
                }
            }
        }
        assert_eq!(next, run.items.len());
    }
}

#[test]
fn runs_never_place_excluded_items_late() {
    for seed in 0..100u64 {
        for run in batch(Some(seed), 3, 4) {
            let slots = run.item_slots();
            for t in 4..6 {
                for i in 0..5 {
                    assert_ne!(slots[t * 5 + i], Some(70));
                }
            }
            for i in 0..5 {
                for item in [93usize, 96, 100] {
                    assert_ne!(slots[25 + i], Some(item));
                }
            }
        }
    }
}

#[test]
fn orchestrator_stream_follows_seed() {
    let runs = batch(Some(2024), 3, 2);
    let mut rng = ChaCha8Rng::seed_from_u64(2024);
    for run in &runs {
        let colors = generate_ts(&mut rng);
        let items = generate_it(&colors, &mut rng, 2).unwrap();
        assert_eq!(run.colors, colors);
        assert_eq!(run.items, items);
    }
    let other = batch(Some(2025), 3, 2);
    assert!(!same_runs(&runs, &other));
}

#[test]
fn orchestrator_without_seed_uses_zero_seed() {
    let runs = batch(None, 2, 4);
    let mut rng = ChaCha8Rng::from_seed([0u8; 32]);
    for run in &runs {
        let colors = generate_ts(&mut rng);
        let items = generate_it(&colors, &mut rng, 4).unwrap();
        assert_eq!(run.colors, colors);
        assert_eq!(run.items, items);
    }
}
