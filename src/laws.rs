//! Facts about runs that hold whatever the random stream yields.
use vstd::prelude::*;

use crate::colors::Colors;
use crate::loot::{counts_for, exclusion_threshold_of, prefix_sum, valid_player_count, TS_COUNT};
use crate::run::Run;
use crate::sampler::{ascending, can_draw, drawn_by, pool_index, pools_drawn, sphere_drawn, valid_run};
use crate::sequence::stream_after_colors;
use rand_chacha::ChaCha8Rng;

verus! {

/// Per-sphere counts are between one and five, six of them, summing up as
/// they go.
pub proof fn lemma_counts_bounds(player_count: int, t: int)
    requires
        valid_player_count(player_count),
        0 <= t <= TS_COUNT,
    ensures
        counts_for(player_count).len() == TS_COUNT,
        0 <= prefix_sum(counts_for(player_count), t) <= 5 * t,
        t < TS_COUNT ==> 0 < counts_for(player_count)[t] <= 5,
        t < TS_COUNT ==> prefix_sum(counts_for(player_count), t + 1) == prefix_sum(
            counts_for(player_count),
            t,
        ) + counts_for(player_count)[t],
    decreases t,
{
    if t > 0 {
        lemma_counts_bounds(player_count, t - 1);
    }
}

/// The running item count grows with the sphere index.
pub proof fn lemma_prefix_le(player_count: int, a: int, b: int)
    requires
        valid_player_count(player_count),
        0 <= a <= b <= TS_COUNT,
    ensures
        prefix_sum(counts_for(player_count), a) <= prefix_sum(counts_for(player_count), b),
    decreases b - a,
{
    if a < b {
        lemma_prefix_le(player_count, a, b - 1);
        lemma_counts_bounds(player_count, b - 1);
    }
}

/// Two ascending lists of the same items are the same list.
pub proof fn lemma_ascending_unique(x: Seq<usize>, y: Seq<usize>)
    requires
        ascending(x),
        ascending(y),
        x.to_set() == y.to_set(),
    ensures
        x == y,
    decreases x.len(),
{
    if x.len() == 0 {
        if y.len() > 0 {
            assert(y.to_set().contains(y[0]));
        }
        assert(x =~= y);
    } else {
        assert(x.to_set().contains(x[0]));
        assert(y.len() > 0);
        assert(y.to_set().contains(y[0]));
        let i = choose|i: int| 0 <= i < y.len() && y[i] == x[0];
        let j = choose|j: int| 0 <= j < x.len() && x[j] == y[0];
        assert(x[0] == y[0]) by {
            if i > 0 {
                assert(y[0] < y[i]);
            }
            if j > 0 {
                assert(x[0] < x[j]);
            }
        }
        let xs = x.drop_first();
        let ys = y.drop_first();
        assert(xs.to_set() =~= ys.to_set()) by {
            assert forall|v: usize| xs.to_set().contains(v) implies ys.to_set().contains(v) by {
                let a = choose|a: int| 0 <= a < xs.len() && xs[a] == v;
                assert(x[a + 1] == v);
                assert(x.to_set().contains(v));
                let b = choose|b: int| 0 <= b < y.len() && y[b] == v;
                assert(b != 0);
                assert(ys[b - 1] == v);
            }
            assert forall|v: usize| ys.to_set().contains(v) implies xs.to_set().contains(v) by {
                let b = choose|b: int| 0 <= b < ys.len() && ys[b] == v;
                assert(y[b + 1] == v);
                assert(y.to_set().contains(v));
                let a = choose|a: int| 0 <= a < x.len() && x[a] == v;
                assert(a != 0);
                assert(xs[a - 1] == v);
            }
        }
        lemma_ascending_unique(xs, ys);
        assert(x =~= seq![x[0]] + xs);
        assert(y =~= seq![y[0]] + ys);
    }
}

/// The item sampler is deterministic: with the same sphere colors, the same
/// shuffled pools and the same player count, it yields the same items.
pub proof fn lemma_drawn_by_unique(
    colors: Seq<Colors>,
    pools: Seq<Seq<usize>>,
    player_count: int,
    a: Seq<usize>,
    b: Seq<usize>,
)
    requires
        valid_player_count(player_count),
        drawn_by(colors, pools, counts_for(player_count), a),
        drawn_by(colors, pools, counts_for(player_count), b),
    ensures
        a == b,
{
    lemma_prefixes_agree(colors, pools, player_count, a, b, TS_COUNT as int);
    lemma_counts_bounds(player_count, TS_COUNT as int);
    assert(a.take(a.len() as int) =~= a);
    assert(b.take(b.len() as int) =~= b);
}

proof fn lemma_prefixes_agree(
    colors: Seq<Colors>,
    pools: Seq<Seq<usize>>,
    player_count: int,
    a: Seq<usize>,
    b: Seq<usize>,
    t: int,
)
    requires
        valid_player_count(player_count),
        drawn_by(colors, pools, counts_for(player_count), a),
        drawn_by(colors, pools, counts_for(player_count), b),
        0 <= t <= TS_COUNT,
    ensures
        a.take(prefix_sum(counts_for(player_count), t)) == b.take(
            prefix_sum(counts_for(player_count), t),
        ),
    decreases t,
{
    let counts = counts_for(player_count);
    if t == 0 {
        assert(a.take(0) =~= b.take(0));
    } else {
        let u = t - 1;
        lemma_prefixes_agree(colors, pools, player_count, a, b, u);
        lemma_counts_bounds(player_count, u);
        lemma_prefix_le(player_count, t, TS_COUNT as int);
        let lo = prefix_sum(counts, u);
        let hi = prefix_sum(counts, t);
        assert(sphere_drawn(colors, pools, counts, a, u));
        assert(sphere_drawn(colors, pools, counts, b, u));
        lemma_ascending_unique(a.subrange(lo, hi), b.subrange(lo, hi));
        assert(a.take(hi) =~= a.take(lo) + a.subrange(lo, hi));
        assert(b.take(hi) =~= b.take(lo) + b.subrange(lo, hi));
    }
}

/// A run is determined by the stream it is drawn from and the player
/// count: two runs drawn from one stream state are the same run. With the
/// orchestrator's stream fixed by its seed, and the state after each run
/// fixed by the state before it, one seed always yields the same batch.
pub proof fn lemma_same_stream_same_run(a: Run, b: Run, rng: ChaCha8Rng)
    requires
        a.drawn_from(rng),
        b.drawn_from(rng),
        a.player_count == b.player_count,
    ensures
        a.colors@ == b.colors@,
        a.items@ == b.items@,
{
    lemma_drawn_by_unique(
        a.colors@,
        pools_drawn(stream_after_colors(rng), a.colors@),
        a.player_count as int,
        a.items@,
        b.items@,
    );
}

/// Two consecutive spheres draw from one shuffle of the pool exactly when
/// they have the same color; otherwise the later one draws from the next
/// shuffle.
pub proof fn lemma_reshuffle_policy(colors: Seq<Colors>, t: int)
    requires
        0 < t < colors.len(),
    ensures
        pool_index(colors, t) == pool_index(colors, t - 1) <==> colors[t] == colors[t - 1],
        colors[t] != colors[t - 1] ==> pool_index(colors, t) == pool_index(colors, t - 1) + 1,
{
}

/// An item with an exclusion threshold `v` never stands in a sphere from
/// which at most `v` spheres remain: the item with threshold two is never
/// found in the last two spheres, those with threshold one never in the last.
pub proof fn lemma_exclusion_positions(
    colors: Seq<Colors>,
    player_count: int,
    items: Seq<usize>,
    t: int,
    j: int,
)
    requires
        valid_player_count(player_count),
        valid_run(colors, counts_for(player_count), items),
        0 <= t < TS_COUNT,
        prefix_sum(counts_for(player_count), t) <= j < prefix_sum(counts_for(player_count), t + 1),
    ensures
        exclusion_threshold_of(items[j] as int) matches Some(v) ==> TS_COUNT - t > v,
        items[j] == 70 ==> t < 4,
        items[j] == 93 || items[j] == 96 || items[j] == 100 ==> t < 5,
{
    assert(can_draw(colors[t], t, items[j]));
}

} // verus!
