//! Runs and the orchestrator that produces a batch of them from one random
//! stream.
use vstd::prelude::*;

use crate::colors::Colors;
use crate::laws::{lemma_counts_bounds, lemma_prefix_le};
use crate::loot::{counts_for, prefix_sum, valid_player_count, ConfigError, IT_FOUND_MAX_PER_TS, TS_COUNT};
use crate::sampler::{drawn_by, generate_it, pools_drawn, stream_after_pools, valid_run};
use crate::sequence::{colors_drawn_from, generate_ts, stream_after_colors};
use crate::stream::{seeded_stream, stream_from_seed, stream_from_u64, stream_of_seed};
use rand_chacha::ChaCha8Rng;

verus! {

/// The stream's state after a whole run was drawn from `rng`.
pub open spec fn stream_after_run(rng: ChaCha8Rng) -> ChaCha8Rng {
    stream_after_pools(stream_after_colors(rng), colors_drawn_from(rng))
}

/// The all-zero seed used where none is given.
pub open spec fn zero_seed() -> Seq<u8> {
    Seq::new(32, |i: int| 0u8)
}

/// One simulated game: the colors of its six spheres and the items found,
/// sphere after sphere, each sphere's items in ascending order.
pub struct Run {
    pub colors: Vec<Colors>,
    pub items: Vec<usize>,
    pub player_count: usize,
}

impl Run {
    /// The run is consistent: a supported player count, six colors, the
    /// counted number of items, none twice, each admitted where it stands.
    pub open spec fn wf(&self) -> bool {
        valid_player_count(self.player_count as int) && valid_run(
            self.colors@,
            counts_for(self.player_count as int),
            self.items@,
        )
    }

    /// The run is what the sequence generator and the item sampler draw
    /// from a stream in state `rng`: the colors from a shuffle of the draw
    /// slots, then the items from the shuffles of the pool that follow.
    pub open spec fn drawn_from(&self, rng: ChaCha8Rng) -> bool {
        &&& self.wf()
        &&& self.colors@ == colors_drawn_from(rng)
        &&& drawn_by(
            self.colors@,
            pools_drawn(stream_after_colors(rng), self.colors@),
            counts_for(self.player_count as int),
            self.items@,
        )
    }

    /// The found items laid out in fixed width: five slots per sphere, the
    /// sphere's items first and `None` in the slots it does not fill.
    pub fn item_slots(&self) -> (r: Vec<Option<usize>>)
        requires
            valid_player_count(self.player_count as int),
            self.items@.len() == prefix_sum(counts_for(self.player_count as int), TS_COUNT as int),
        ensures
            r@.len() == TS_COUNT * IT_FOUND_MAX_PER_TS,
            forall|t: int, i: int|
                0 <= t < TS_COUNT && 0 <= i < IT_FOUND_MAX_PER_TS ==> #[trigger] r@[t * 5 + i] == if i
                    < counts_for(self.player_count as int)[t] {
                    Some(self.items@[prefix_sum(counts_for(self.player_count as int), t) + i])
                } else {
                    None
                },
    {
        let ghost counts = counts_for(self.player_count as int);
        let mut r: Vec<Option<usize>> = Vec::new();
        let mut next: usize = 0;
        let mut t: usize = 0;
        while t < TS_COUNT
            invariant
                valid_player_count(self.player_count as int),
                self.items@.len() == prefix_sum(counts_for(self.player_count as int), TS_COUNT as int),
                counts == counts_for(self.player_count as int),
                t <= TS_COUNT,
                next == prefix_sum(counts, t as int),
                r@.len() == t * 5,
                forall|u: int, i: int|
                    0 <= u < t && 0 <= i < IT_FOUND_MAX_PER_TS ==> #[trigger] r@[u * 5 + i] == if i
                        < counts[u] {
                        Some(self.items@[prefix_sum(counts, u) + i])
                    } else {
                        None
                    },
            decreases TS_COUNT - t,
        {
            proof {
                lemma_counts_bounds(self.player_count as int, t as int);
                lemma_counts_bounds(self.player_count as int, TS_COUNT as int);
                lemma_prefix_le(self.player_count as int, t as int + 1, TS_COUNT as int);
            }
            let k = if self.player_count == 1 && t >= 2 {
                3
            } else if (self.player_count == 2 || self.player_count == 3) && t >= 2 {
                4
            } else {
                5
            };
            assert(k == counts[t as int]);
            let mut i: usize = 0;
            while i < IT_FOUND_MAX_PER_TS
                invariant
                    valid_player_count(self.player_count as int),
                    self.items@.len() == prefix_sum(counts_for(self.player_count as int), TS_COUNT as int),
                    counts == counts_for(self.player_count as int),
                    t < TS_COUNT,
                    i <= IT_FOUND_MAX_PER_TS,
                    k == counts[t as int],
                    next == prefix_sum(counts, t as int),
                    next + k <= self.items@.len(),
                    next <= 25,
                    k <= 5,
                    r@.len() == t * 5 + i,
                    forall|u: int, j: int|
                        0 <= u < t && 0 <= j < IT_FOUND_MAX_PER_TS ==> #[trigger] r@[u * 5 + j] == if j
                            < counts[u] {
                            Some(self.items@[prefix_sum(counts, u) + j])
                        } else {
                            None
                        },
                    forall|j: int|
                        0 <= j < i ==> #[trigger] r@[t * 5 + j] == if j < counts[t as int] {
                            Some(self.items@[prefix_sum(counts, t as int) + j])
                        } else {
                            None
                        },
                decreases IT_FOUND_MAX_PER_TS - i,
            {
                if i < k {
                    r.push(Some(self.items[next + i]));
                } else {
                    r.push(None);
                }
                i = i + 1;
            }
            next = next + k;
            t = t + 1;
        }
        r
    }
}

/// Produces a batch of runs from one random stream, which flows on from
/// each run into the next and is never reset.
pub struct Orchestrator {
    rng: ChaCha8Rng,
    player_count: usize,
    remaining: u16,
}

impl Orchestrator {
    /// The player count of every run of the batch.
    pub closed spec fn players(&self) -> int {
        self.player_count as int
    }

    /// How many runs of the batch are still to come.
    pub closed spec fn remaining_runs(&self) -> int {
        self.remaining as int
    }

    /// The stream's current state.
    pub closed spec fn stream(&self) -> ChaCha8Rng {
        self.rng
    }

    /// The batch was set up with a supported player count.
    pub closed spec fn wf(&self) -> bool {
        valid_player_count(self.player_count as int)
    }

    /// Sets up a batch of `run_count` runs for `player_count` players. The
    /// stream is seeded from `seed`, or with the all-zero seed where there
    /// is none. A bad request is refused before any stream exists; the
    /// player count is checked first.
    pub fn new(seed: Option<u64>, run_count: u16, player_count: usize) -> (r: Result<
        Orchestrator,
        ConfigError,
    >)
        ensures
            match r {
                Ok(o) => {
                    &&& valid_player_count(player_count as int)
                    &&& run_count >= 1
                    &&& o.wf()
                    &&& o.players() == player_count
                    &&& o.remaining_runs() == run_count
                    &&& o.stream() == match seed {
                        Some(s) => seeded_stream(s),
                        None => stream_of_seed(zero_seed()),
                    }
                },
                Err(e) => if !valid_player_count(player_count as int) {
                    e == ConfigError::InvalidPlayerCount(player_count)
                } else {
                    run_count == 0 && e == ConfigError::InvalidRunCount
                },
            },
    {
        if player_count < 1 || player_count > 4 {
            return Err(ConfigError::InvalidPlayerCount(player_count));
        }
        if run_count == 0 {
            return Err(ConfigError::InvalidRunCount);
        }
        let rng = match seed {
            Some(s) => stream_from_u64(s),
            None => {
                let zeros: [u8; 32] = [0u8; 32];
                assert(zeros@ =~= zero_seed());
                stream_from_seed(zeros)
            },
        };
        Ok(Orchestrator { rng, player_count, remaining: run_count })
    }

    /// The player count of the batch.
    pub fn player_count(&self) -> (r: usize)
        ensures
            r == self.players(),
    {
        self.player_count
    }

    /// How many runs are still to come.
    pub fn remaining(&self) -> (r: u16)
        ensures
            r == self.remaining_runs(),
    {
        self.remaining
    }

    /// The next run of the batch, or `None` once all of them were produced.
    pub fn next_run(&mut self) -> (r: Option<Run>)
        requires
            old(self).wf(),
        ensures
            final(self).wf(),
            final(self).players() == old(self).players(),
            old(self).remaining_runs() == 0 ==> {
                &&& r is None
                &&& final(self).remaining_runs() == 0
                &&& final(self).stream() == old(self).stream()
            },
            old(self).remaining_runs() > 0 ==> {
                &&& r is Some
                &&& r->Some_0.drawn_from(old(self).stream())
                &&& final(self).stream() == stream_after_run(old(self).stream())
                &&& r->Some_0.player_count == old(self).players()
                &&& final(self).remaining_runs() == old(self).remaining_runs() - 1
            },
    {
        if self.remaining == 0 {
            return None;
        }
        self.remaining = self.remaining - 1;
        let colors = generate_ts(&mut self.rng);
        match generate_it(&colors, &mut self.rng, self.player_count) {
            Ok(items) => Some(Run { colors, items, player_count: self.player_count }),
            Err(_) => None,
        }
    }
}

} // verus!
