//! Game constants: the per-player-count loot table and the late-game
//! exclusion rule.
use vstd::prelude::*;

verus! {

/// Number of treasure spheres in a run.
pub const TS_COUNT: usize = 6;

/// Number of items in the catalog.
pub const IT_COUNT: usize = 200;

/// Largest number of items a single sphere can yield.
pub const IT_FOUND_MAX_PER_TS: usize = 5;

/// A request that the simulation cannot serve.
#[derive(Debug, Clone, Copy, PartialEq, Eq, Structural)]
pub enum ConfigError {
    /// The player count is outside 1..=4.
    InvalidPlayerCount(usize),
    /// A batch must hold at least one run.
    InvalidRunCount,
}

/// Player counts the game supports.
pub open spec fn valid_player_count(player_count: int) -> bool {
    1 <= player_count <= 4
}

/// How many items each sphere yields for a supported player count.
pub open spec fn counts_for(player_count: int) -> Seq<usize> {
    if player_count == 1 {
        seq![5usize, 5, 3, 3, 3, 3]
    } else if player_count == 2 || player_count == 3 {
        seq![5usize, 5, 4, 4, 4, 4]
    } else {
        seq![5usize, 5, 5, 5, 5, 5]
    }
}

/// Sum of the first `n` entries of `s`.
pub open spec fn prefix_sum(s: Seq<usize>, n: int) -> int
    decreases n,
{
    if n <= 0 {
        0
    } else {
        prefix_sum(s, n - 1) + s[n - 1]
    }
}

/// Per-sphere item counts for `player_count` players.
pub fn loot_counts(player_count: usize) -> (r: Result<Vec<usize>, ConfigError>)
    ensures
        match r {
            Ok(v) => valid_player_count(player_count as int) && v@ == counts_for(
                player_count as int,
            ),
            Err(e) => !valid_player_count(player_count as int) && e
                == ConfigError::InvalidPlayerCount(player_count),
        },
{
    match player_count {
        1 => Ok(vec![5, 5, 3, 3, 3, 3]),
        2 | 3 => Ok(vec![5, 5, 4, 4, 4, 4]),
        4 => Ok(vec![5, 5, 5, 5, 5, 5]),
        _ => Err(ConfigError::InvalidPlayerCount(player_count)),
    }
}

/// Total number of items found in one run by `player_count` players.
pub fn loot_sum(player_count: usize) -> (r: Result<usize, ConfigError>)
    ensures
        match r {
            Ok(s) => {
                &&& valid_player_count(player_count as int)
                &&& s == prefix_sum(counts_for(player_count as int), TS_COUNT as int)
                &&& s == if player_count == 1 {
                    22int
                } else if player_count == 4 {
                    30int
                } else {
                    26int
                }
            },
            Err(e) => !valid_player_count(player_count as int) && e
                == ConfigError::InvalidPlayerCount(player_count),
        },
{
    let counts = loot_counts(player_count)?;
    let mut sum: usize = 0;
    let mut t: usize = 0;
    while t < counts.len()
        invariant
            counts@ == counts_for(player_count as int),
            t <= counts.len(),
            sum == prefix_sum(counts@, t as int),
            sum <= 5 * t,
        decreases counts.len() - t,
    {
        sum = sum + counts[t];
        t = t + 1;
    }
    proof {
        reveal_with_fuel(prefix_sum, 7);
    }
    Ok(sum)
}

/// The late-game exclusion threshold of a catalog item, if it has one: the
/// item is never drawn while at most that many spheres remain.
pub open spec fn exclusion_threshold_of(item: int) -> Option<nat> {
    if item == 70 {
        Some(2)
    } else if item == 93 || item == 96 || item == 100 {
        Some(1)
    } else {
        None
    }
}

/// Whether `item` may be drawn when `remaining` spheres are left, the
/// current one included.
pub open spec fn allowed_with(item: int, remaining: int) -> bool {
    match exclusion_threshold_of(item) {
        Some(v) => remaining > v,
        None => true,
    }
}

/// The exclusion threshold of `item`, if it has one.
pub fn exclusion_threshold(item: usize) -> (r: Option<usize>)
    ensures
        match exclusion_threshold_of(item as int) {
            Some(v) => r == Some(v as usize),
            None => r is None,
        },
{
    match item {
        70 => Some(2),
        93 | 96 | 100 => Some(1),
        _ => None,
    }
}

/// Checks that `*item` may be drawn at sphere `*ts_i` of a run of
/// `*ts_count` spheres.
pub fn is_item_in_ts_pos(item: &usize, ts_i: &usize, ts_count: &usize) -> (r: bool)
    requires
        *ts_i <= *ts_count,
    ensures
        r == allowed_with(*item as int, *ts_count - *ts_i),
{
    let delta = *ts_count - *ts_i;
    match exclusion_threshold(*item) {
        Some(v) => v < delta,
        None => true,
    }
}

} // verus!
