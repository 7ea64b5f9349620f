use rand::seq::SliceRandom;
use rand::{RngCore, SeedableRng};
use rand_chacha::ChaCha8Rng;
use ts_loot::{
    colors_from_slots, draw_items, generate_it, generate_ts, is_item_in_ts_pos, reshuffle_count,
    Colors, ConfigError,
};

fn identity_pool() -> Vec<usize> {
    (0..200).collect()
}

#[test]
fn reshuffles_only_on_color_change() {
    let colors = vec![
        Colors::Opal,
        Colors::Opal,
        Colors::Ruby,
        Colors::Ruby,
        Colors::Ruby,
        Colors::Normal,
    ];
    assert_eq!(reshuffle_count(&colors), 3);
    let distinct = vec![
        Colors::Normal,
        Colors::Opal,
        Colors::Normal,
        Colors::Ruby,
        Colors::Normal,
        Colors::Garnet,
    ];
    assert_eq!(reshuffle_count(&distinct), 6);
    assert_eq!(reshuffle_count(&vec![Colors::Normal; 6]), 1);
}

#[test]
fn stream_advances_by_exactly_the_reshuffles() {
    let colors = vec![
        Colors::Opal,
        Colors::Opal,
        Colors::Ruby,
        Colors::Ruby,
        Colors::Ruby,
        Colors::Normal,
    ];
    let mut rng = ChaCha8Rng::seed_from_u64(7);
    let items = generate_it(&colors, &mut rng, 1).unwrap();
    assert_eq!(items.len(), 22);

    let mut replay = ChaCha8Rng::seed_from_u64(7);
    let mut pool: Vec<usize> = identity_pool();
    let mut pools = Vec::new();
    for _ in 0..3 {
        pool.shuffle(&mut replay);
        pools.push(pool.clone());
    }
    assert_eq!(rng.next_u64(), replay.next_u64());
    assert_eq!(draw_items(&colors, &pools, 1), Ok(items));
}

#[test]
fn generate_it_rejects_bad_player_count_without_drawing() {
    let colors = vec![Colors::Normal; 6];
    let mut rng = ChaCha8Rng::seed_from_u64(3);
    assert_eq!(
        generate_it(&colors, &mut rng, 0),
        Err(ConfigError::InvalidPlayerCount(0))
    );
    assert_eq!(
        generate_it(&colors, &mut rng, 5),
        Err(ConfigError::InvalidPlayerCount(5))
    );
    let mut fresh = ChaCha8Rng::seed_from_u64(3);
    assert_eq!(rng.next_u64(), fresh.next_u64());
}

#[test]
fn draw_items_takes_first_items_of_pool() {
    let colors = vec![Colors::Normal; 6];
    let pools = vec![identity_pool()];
    let items = draw_items(&colors, &pools, 1).unwrap();
    assert_eq!(items, (0..22).collect::<Vec<usize>>());
}

#[test]
fn draw_items_sorts_each_sphere() {
    let colors = vec![Colors::Normal; 6];
    let pools = vec![(0..200).rev().collect::<Vec<usize>>()];
    let items = draw_items(&colors, &pools, 4).unwrap();
    let mut expected = Vec::new();
    for t in 0..6 {
        let hi = 200 - 5 * t;
        expected.extend((hi - 5)..hi);
    }
    assert_eq!(items, expected);
}

#[test]
fn draw_items_skips_excluded_item_late() {
    let colors = vec![Colors::Ruby; 6];
    let pools = vec![identity_pool()];
    let items = draw_items(&colors, &pools, 4).unwrap();
    assert_eq!(
        items,
        vec![
            48, 49, 50, 51, 52, 53, 54, 55, 56, 57, 58, 59, 60, 61, 62, 63, 64, 65, 66, 67, 68,
            69, 71, 128, 129, 130, 131, 132, 133, 134
        ]
    );
    assert!(!items.contains(&70));
}

#[test]
fn draw_items_takes_excluded_item_early() {
    let colors = vec![Colors::Ruby; 6];
    let mut pool: Vec<usize> = vec![70];
    pool.extend((0..200).filter(|i| *i != 70));
    let items = draw_items(&colors, &vec![pool], 1).unwrap();
    assert_eq!(&items[0..5], &[48, 49, 50, 51, 70]);
}

#[test]
fn draw_items_threshold_one_items_not_in_last_sphere() {
    let colors = vec![
        Colors::Normal,
        Colors::Opal,
        Colors::Normal,
        Colors::Opal,
        Colors::Normal,
        Colors::Emerald,
    ];
    let mut last: Vec<usize> = vec![93, 96, 100];
    last.extend((0..200).filter(|i| ![93, 96, 100].contains(i)));
    let pools = vec![
        identity_pool(),
        identity_pool(),
        identity_pool(),
        identity_pool(),
        identity_pool(),
        last,
    ];
    let items = draw_items(&colors, &pools, 1).unwrap();
    let sphere5 = &items[19..22];
    assert_eq!(sphere5, &[97, 98, 99]);
}

#[test]
fn draw_items_uses_one_pool_per_shuffle() {
    let colors = vec![
        Colors::Normal,
        Colors::Normal,
        Colors::Opal,
        Colors::Opal,
        Colors::Normal,
        Colors::Normal,
    ];
    let first = identity_pool();
    let second: Vec<usize> = (0..200).rev().collect();
    let third = identity_pool();
    let items = draw_items(&colors, &vec![first, second, third], 1).unwrap();
    assert_eq!(
        items,
        vec![
            0, 1, 2, 3, 4, 5, 6, 7, 8, 9, 149, 150, 151, 146, 147, 148, 10, 11, 12, 13, 14, 15
        ]
    );
}

#[test]
fn draw_items_rejects_bad_player_count() {
    let colors = vec![Colors::Normal; 6];
    let pools = vec![identity_pool()];
    assert_eq!(
        draw_items(&colors, &pools, 0),
        Err(ConfigError::InvalidPlayerCount(0))
    );
    assert_eq!(
        draw_items(&colors, &pools, 5),
        Err(ConfigError::InvalidPlayerCount(5))
    );
}

#[test]
fn colors_from_slots_reads_first_six() {
    let slots: Vec<u8> = vec![7, 0, 3, 1, 6, 2, 4, 5];
    assert_eq!(
        colors_from_slots(&slots),
        vec![
            Colors::Emerald,
            Colors::Normal,
            Colors::Opal,
            Colors::Normal,
            Colors::Garnet,
            Colors::Normal
        ]
    );
}

#[test]
fn generate_ts_has_six_colors_with_weighted_slots() {
    let in_order = colors_from_slots(&(0..8).collect());
    let mut shuffled_somewhere = false;
    for seed in 0..200u64 {
        let mut rng = ChaCha8Rng::seed_from_u64(seed);
        let colors = generate_ts(&mut rng);
        assert_eq!(colors.len(), 6);
        let normals = colors.iter().filter(|c| **c == Colors::Normal).count();
        assert!(normals <= 3);
        for special in [
            Colors::Opal,
            Colors::Sapphire,
            Colors::Ruby,
            Colors::Garnet,
            Colors::Emerald,
        ] {
            assert!(colors.iter().filter(|c| **c == special).count() <= 1);
        }
        if colors != in_order {
            shuffled_somewhere = true;
        }
    }
    assert!(shuffled_somewhere);
}

#[test]
fn generated_items_respect_rules_for_every_player_count() {
    for player_count in 1..=4usize {
        let counts = ts_loot::loot_counts(player_count).unwrap();
        for seed in 0..50u64 {
            let mut rng = ChaCha8Rng::seed_from_u64(seed);
            let colors = generate_ts(&mut rng);
            let items = generate_it(&colors, &mut rng, player_count).unwrap();
            assert_eq!(items.len(), counts.iter().sum::<usize>());
            let mut seen = std::collections::HashSet::new();
            for it in &items {
                assert!(seen.insert(*it));
            }
            let mut start = 0;
            for t in 0..6usize {
                let sphere = &items[start..start + counts[t]];
                for w in sphere.windows(2) {
                    assert!(w[0] < w[1]);
                }
                for it in sphere {
                    assert!(colors[t].in_ts_pool(it));
                    assert!(is_item_in_ts_pos(it, &t, &6));
                }
                start += counts[t];
            }
        }
    }
}

#[test]
fn generated_items_are_shuffled() {
    let colors = vec![Colors::Normal; 6];
    let mut rng = ChaCha8Rng::seed_from_u64(11);
    let items = generate_it(&colors, &mut rng, 4).unwrap();
    assert_ne!(items, (0..30).collect::<Vec<usize>>());
}
