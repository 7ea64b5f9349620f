//! The item sampler: per sphere, the first eligible and still unfound items
//! of a shuffled pool of the whole catalog.
use vstd::prelude::*;
use vstd::seq_lib::{group_to_multiset_ensures, lemma_no_dup_in_concat};
use vstd::set_lib::{lemma_len_subset, lemma_len_union};

use crate::colors::Colors;
use crate::laws::{lemma_counts_bounds, lemma_prefix_le};
use crate::loot::{
    allowed_with, counts_for, is_item_in_ts_pos, loot_counts, prefix_sum, valid_player_count,
    ConfigError, IT_COUNT, TS_COUNT,
};
use crate::stream::{rearranged, shuffle_in_place, shuffle_outcome};
use rand_chacha::ChaCha8Rng;

verus! {

broadcast use group_to_multiset_ensures;

/// The catalog in identifier order: `0, 1, ..., 199`.
pub open spec fn catalog() -> Seq<usize> {
    Seq::new(IT_COUNT as nat, |i: int| i as usize)
}

/// A pool is an arrangement of the whole catalog, each item once.
pub open spec fn is_item_pool(pool: Seq<usize>) -> bool {
    pool.to_multiset() == catalog().to_multiset()
}

/// Whether a sphere of color `c` at position `t` may yield `item`: the
/// color admits it and its exclusion threshold is not reached.
pub open spec fn can_draw(c: Colors, t: int, item: usize) -> bool {
    c.eligible(item as int) && allowed_with(item as int, TS_COUNT - t)
}

/// What a sphere of color `c` at position `t` accepts when `found` holds
/// the items already found.
pub open spec fn accepts(c: Colors, t: int, found: Seq<usize>) -> spec_fn(usize) -> bool {
    |x: usize| can_draw(c, t, x) && !found.contains(x)
}

/// The items of `pool`, in pool order, that such a sphere accepts.
pub open spec fn candidates(pool: Seq<usize>, c: Colors, t: int, found: Seq<usize>) -> Seq<usize> {
    pool.filter(accepts(c, t, found))
}

/// The `k` items that the scan of `pool` draws for such a sphere.
pub open spec fn sphere_pick(pool: Seq<usize>, c: Colors, t: int, found: Seq<usize>, k: int) -> Seq<usize> {
    candidates(pool, c, t, found).take(k)
}

/// Strictly ascending.
pub open spec fn ascending(s: Seq<usize>) -> bool {
    forall|a: int, b: int| 0 <= a < b < s.len() ==> s[a] < s[b]
}

/// `out` lists the items of `drawn` in ascending order.
pub open spec fn sorted_form(out: Seq<usize>, drawn: Seq<usize>) -> bool {
    ascending(out) && out.to_set() == drawn.to_set()
}

/// Which pool sphere `t` draws from: the pool is shuffled before the first
/// sphere and again before each sphere whose color differs from the one
/// before it, so spheres of one color in a row share a shuffle.
pub open spec fn pool_index(colors: Seq<Colors>, t: int) -> int
    decreases t,
{
    if t <= 0 {
        0
    } else {
        pool_index(colors, t - 1) + if colors[t] == colors[t - 1] {
            0int
        } else {
            1int
        }
    }
}

/// How many shuffles of the pool a run with these sphere colors makes.
pub open spec fn reshuffles(colors: Seq<Colors>) -> int {
    pool_index(colors, colors.len() - 1) + 1
}

/// The first `n` shuffles of the pool, starting from `pool` with the
/// stream in state `rng`: each shuffle rearranges the pool left by the one
/// before. Also the stream's state after them.
pub open spec fn pool_shuffles(rng: ChaCha8Rng, pool: Seq<usize>, n: nat) -> (Seq<Seq<usize>>, ChaCha8Rng)
    decreases n,
{
    if n == 0 {
        (Seq::empty(), rng)
    } else {
        let (prev, r) = pool_shuffles(rng, pool, (n - 1) as nat);
        let cur = if n == 1 {
            pool
        } else {
            prev.last()
        };
        let (order, next) = shuffle_outcome(r, cur.len());
        (prev.push(rearranged(cur, order)), next)
    }
}

/// The pools that a run with these sphere colors draws from, the stream
/// being in state `rng` when its item sampling starts.
pub open spec fn pools_drawn(rng: ChaCha8Rng, colors: Seq<Colors>) -> Seq<Seq<usize>> {
    pool_shuffles(rng, catalog(), reshuffles(colors) as nat).0
}

/// The stream's state once those pools were shuffled.
pub open spec fn stream_after_pools(rng: ChaCha8Rng, colors: Seq<Colors>) -> ChaCha8Rng {
    pool_shuffles(rng, catalog(), reshuffles(colors) as nat).1
}

/// The views of a list of pools.
pub open spec fn pool_views(pools: Seq<Vec<usize>>) -> Seq<Seq<usize>> {
    pools.map_values(|v: Vec<usize>| v@)
}

/// Sphere `t` of `items` is what the scan of its pool draws, given the
/// items of the spheres before it, listed in ascending order.
pub open spec fn sphere_drawn(
    colors: Seq<Colors>,
    pools: Seq<Seq<usize>>,
    counts: Seq<usize>,
    items: Seq<usize>,
    t: int,
) -> bool {
    let lo = prefix_sum(counts, t);
    let hi = prefix_sum(counts, t + 1);
    sorted_form(
        items.subrange(lo, hi),
        sphere_pick(pools[pool_index(colors, t)], colors[t], t, items.take(lo), counts[t] as int),
    )
}

/// `items` is the found-item list that a run with these sphere colors,
/// shuffled pools and per-sphere counts yields.
pub open spec fn drawn_by(
    colors: Seq<Colors>,
    pools: Seq<Seq<usize>>,
    counts: Seq<usize>,
    items: Seq<usize>,
) -> bool {
    &&& items.len() == prefix_sum(counts, TS_COUNT as int)
    &&& forall|t: int| 0 <= t < TS_COUNT ==> #[trigger] sphere_drawn(colors, pools, counts, items, t)
}

/// What holds of every run: six colors, the counted number of items, no item
/// twice, and every item admitted by the color and position of its sphere.
pub open spec fn valid_run(colors: Seq<Colors>, counts: Seq<usize>, items: Seq<usize>) -> bool {
    &&& colors.len() == TS_COUNT
    &&& items.len() == prefix_sum(counts, TS_COUNT as int)
    &&& items.no_duplicates()
    &&& forall|t: int, j: int|
        0 <= t < TS_COUNT && prefix_sum(counts, t) <= j < prefix_sum(counts, t + 1)
            ==> #[trigger] can_draw(colors[t], t, items[j])
}

proof fn lemma_catalog()
    ensures
        catalog().no_duplicates(),
        forall|x: usize| #[trigger] catalog().contains(x) <==> x < IT_COUNT,
{
    assert forall|x: usize| x < IT_COUNT implies #[trigger] catalog().contains(x) by {
        assert(catalog()[x as int] == x);
    }
}

/// A pool holds every catalog item exactly once and nothing else.
pub proof fn lemma_item_pool(pool: Seq<usize>)
    requires
        is_item_pool(pool),
    ensures
        pool.len() == IT_COUNT,
        pool.no_duplicates(),
        forall|i: int| 0 <= i < pool.len() ==> #[trigger] pool[i] < IT_COUNT,
        forall|x: usize| #[trigger] pool.contains(x) <==> x < IT_COUNT,
{
    lemma_catalog();
    catalog().lemma_multiset_has_no_duplicates();
    assert forall|x: usize| pool.contains(x) <==> x < IT_COUNT by {
        assert(pool.contains(x) <==> pool.to_multiset().count(x) > 0);
        assert(catalog().contains(x) <==> catalog().to_multiset().count(x) > 0);
    }
    assert forall|i: int| 0 <= i < pool.len() implies #[trigger] pool[i] < IT_COUNT by {
        assert(pool.contains(pool[i]));
    }
    assert forall|x: usize| pool.to_multiset().contains(x) implies pool.to_multiset().count(x)
        == 1 by {
        assert(catalog().to_multiset().contains(x));
    }
    pool.lemma_multiset_has_no_duplicates_conv();
    assert(pool.len() == pool.to_multiset().len());
    assert(catalog().len() == catalog().to_multiset().len());
}

/// The `i`-th of thirty distinct items that a sphere of color `c` accepts at
/// any position, whatever its exclusion thresholds.
pub open spec fn witness(c: Colors, i: int) -> usize {
    (match c {
        Colors::Normal => i,
        Colors::Opal => 120 + i,
        Colors::Sapphire => if i < 24 {
            24 + i
        } else {
            152 + (i - 24)
        },
        Colors::Ruby => if i < 22 {
            48 + i
        } else {
            176 + (i - 22)
        },
        Colors::Garnet => if i < 21 {
            72 + i
        } else if i < 29 {
            136 + (i - 21)
        } else {
            160 + (i - 29)
        },
        Colors::Emerald => if i < 19 {
            101 + i
        } else {
            184 + (i - 19)
        },
    }) as usize
}

/// However the pool is arranged, a sphere that needs `k` items finds them
/// as long as at most `30 - k` items were found before it.
pub proof fn lemma_enough_candidates(pool: Seq<usize>, c: Colors, t: int, found: Seq<usize>, k: int)
    requires
        is_item_pool(pool),
        0 <= t < TS_COUNT,
        found.len() + k <= 30,
    ensures
        candidates(pool, c, t, found).len() >= k,
{
    lemma_item_pool(pool);
    let pred = accepts(c, t, found);
    let cand = candidates(pool, c, t, found);
    let w = Seq::new(30, |i: int| witness(c, i));
    assert forall|a: int, b: int| 0 <= a < b < w.len() implies w[a] < w[b] by {}
    assert(w.no_duplicates());
    w.unique_seq_to_set();
    assert forall|x: usize| w.to_set().contains(x) implies found.to_set().union(
        cand.to_set(),
    ).contains(x) by {
        let i = choose|i: int| 0 <= i < w.len() && w[i] == x;
        assert(x == witness(c, i));
        assert(can_draw(c, t, x));
        if !found.contains(x) {
            assert(pool.contains(x));
            let j = choose|j: int| 0 <= j < pool.len() && pool[j] == x;
            pool.lemma_filter_contains(pred, j);
        }
    }
    found.lemma_cardinality_of_set();
    cand.lemma_cardinality_of_set();
    lemma_len_union(found.to_set(), cand.to_set());
    lemma_len_subset(w.to_set(), found.to_set().union(cand.to_set()));
}

/// Whether `x` occurs in `v`.
fn holds(v: &Vec<usize>, x: usize) -> (r: bool)
    ensures
        r == v@.contains(x),
{
    let mut i: usize = 0;
    while i < v.len()
        invariant
            i <= v.len(),
            forall|j: int| 0 <= j < i ==> v@[j] != x,
        decreases v.len() - i,
    {
        if v[i] == x {
            return true;
        }
        i = i + 1;
    }
    false
}

/// Inserts `x` into the ascending `buf` at its place.
fn insert_sorted(buf: &mut Vec<usize>, x: usize)
    requires
        ascending(old(buf)@),
        !old(buf)@.contains(x),
        old(buf)@.len() < usize::MAX,
    ensures
        ascending(final(buf)@),
        final(buf)@.to_set() == old(buf)@.to_set().insert(x),
        final(buf)@.len() == old(buf)@.len() + 1,
{
    let mut j: usize = 0;
    while j < buf.len() && buf[j] < x
        invariant
            j <= buf.len(),
            forall|a: int| 0 <= a < j ==> buf@[a] < x,
        decreases buf.len() - j,
    {
        j = j + 1;
    }
    let ghost prev = buf@;
    assert(forall|a: int| j <= a < prev.len() ==> prev[a] > x) by {
        assert forall|a: int| j <= a < prev.len() implies prev[a] > x by {
            assert(prev[j as int] >= x);
            assert(prev[j as int] != x);
        }
    }
    buf.insert(j, x);
    assert(buf@.to_set() =~= prev.to_set().insert(x)) by {
        assert forall|y: usize| buf@.contains(y) implies prev.to_set().insert(x).contains(y) by {
            let i = choose|i: int| 0 <= i < buf@.len() && buf@[i] == y;
            if i < j {
                assert(prev[i] == y);
            } else if i > j {
                assert(prev[i - 1] == y);
            }
        }
        assert forall|y: usize| prev.to_set().insert(x).contains(y) implies buf@.contains(y) by {
            if y == x {
                assert(buf@[j as int] == x);
            } else {
                let i = choose|i: int| 0 <= i < prev.len() && prev[i] == y;
                if i < j {
                    assert(buf@[i] == y);
                } else {
                    assert(buf@[i + 1] == y);
                }
            }
        }
    }
}

/// Draws the items of sphere `t`, of color `color`, from `pool` and appends
/// them to `items` in ascending order; `items` holds the items found so far.
fn draw_sphere(pool: &Vec<usize>, color: Colors, t: usize, items: &mut Vec<usize>, k: usize)
    requires
        is_item_pool(pool@),
        t < TS_COUNT,
        old(items)@.len() + k <= 30,
        old(items)@.no_duplicates(),
    ensures
        final(items)@.len() == old(items)@.len() + k,
        final(items)@.take(old(items)@.len() as int) == old(items)@,
        sorted_form(
            final(items)@.skip(old(items)@.len() as int),
            sphere_pick(pool@, color, t as int, old(items)@, k as int),
        ),
        final(items)@.no_duplicates(),
        forall|j: int|
            old(items)@.len() <= j < final(items)@.len() ==> can_draw(color, t as int, #[trigger] final(items)@[j]),
{
    proof {
        lemma_item_pool(pool@);
    }
    let ghost found = items@;
    let ghost pred = accepts(color, t as int, found);
    let mut buf: Vec<usize> = Vec::new();
    let ghost mut drawn: Seq<usize> = Seq::empty();
    let mut p: usize = 0;
    assert(pool@.take(0) =~= Seq::<usize>::empty());
    assert(Seq::<usize>::empty().filter(pred) =~= Seq::<usize>::empty()) by {
        reveal(Seq::filter);
    }
    while buf.len() < k
        invariant
            is_item_pool(pool@),
            pool@.len() == IT_COUNT,
            pool@.no_duplicates(),
            forall|i: int| 0 <= i < pool@.len() ==> #[trigger] pool@[i] < IT_COUNT,
            t < TS_COUNT,
            found.len() + k <= 30,
            items@ == found,
            pred == accepts(color, t as int, found),
            p <= IT_COUNT,
            drawn == pool@.take(p as int).filter(pred),
            buf@.len() == drawn.len(),
            buf@.len() <= k,
            sorted_form(buf@, drawn),
            forall|x: usize| #[trigger] buf@.contains(x) ==> pred(x),
            forall|x: usize| #[trigger] drawn.contains(x) ==> pool@.take(p as int).contains(x),
        decreases IT_COUNT - p,
    {
        if p == IT_COUNT {
            proof {
                assert(pool@.take(p as int) =~= pool@);
                lemma_enough_candidates(pool@, color, t as int, found, k as int);
                assert(false);
            }
        }
        let x = pool[p];
        proof {
            assert(pool@.take(p + 1) =~= pool@.take(p as int).push(x));
            pool@.take(p as int).lemma_filter_push(x, pred);
        }
        if color.in_ts_pool(&x) && is_item_in_ts_pos(&x, &t, &TS_COUNT) && !holds(items, x) {
            proof {
                if buf@.contains(x) {
                    assert(buf@.to_set().contains(x));
                    assert(drawn.contains(x));
                    let i = choose|i: int| 0 <= i < p && pool@[i] == x;
                    assert(pool@.take(p as int)[i] == x);
                }
            }
            insert_sorted(&mut buf, x);
            proof {
                assert(pred(x));
                assert(drawn.push(x).to_set() =~= drawn.to_set().insert(x)) by {
                    assert(drawn.push(x)[drawn.len() as int] == x);
                    assert forall|y: usize| drawn.contains(y) implies drawn.push(x).contains(y) by {
                        let i = choose|i: int| 0 <= i < drawn.len() && drawn[i] == y;
                        assert(drawn.push(x)[i] == y);
                    }
                }
                drawn = drawn.push(x);
                assert(buf@.to_set() =~= drawn.to_set());
                assert forall|y: usize| #[trigger] buf@.contains(y) implies pred(y) by {
                    assert(buf@.to_set().contains(y));
                }
            }
        }
        proof {
            assert forall|y: usize| #[trigger] drawn.contains(y) implies pool@.take(p + 1).contains(y) by {
                if y == x {
                    assert(pool@.take(p + 1)[p as int] == x);
                } else {
                    let old_drawn = pool@.take(p as int).filter(pred);
                    assert(old_drawn.contains(y));
                    let i = choose|i: int| 0 <= i < p && pool@.take(p as int)[i] == y;
                    assert(pool@.take(p + 1)[i] == y);
                }
            }
        }
        p = p + 1;
    }
    proof {
        let whole = pool@;
        assert(whole =~= whole.take(p as int) + whole.skip(p as int));
        Seq::filter_distributes_over_add(whole.take(p as int), whole.skip(p as int), pred);
        assert(candidates(pool@, color, t as int, found) == drawn + whole.skip(p as int).filter(pred));
        assert(sphere_pick(pool@, color, t as int, found, k as int) =~= drawn);
    }
    let mut i: usize = 0;
    while i < buf.len()
        invariant
            i <= buf@.len(),
            buf@.len() == k,
            found.len() + k <= 30,
            items@ == found + buf@.take(i as int),
        decreases buf.len() - i,
    {
        items.push(buf[i]);
        assert(buf@.take(i + 1) =~= buf@.take(i as int).push(buf@[i as int]));
        i = i + 1;
    }
    proof {
        assert(buf@.take(i as int) =~= buf@);
        assert(items@.take(found.len() as int) =~= found);
        assert(items@.skip(found.len() as int) =~= buf@);
        assert(buf@.no_duplicates());
        assert forall|a: int, b: int| 0 <= a < found.len() && 0 <= b < buf@.len() implies found[a]
            != buf@[b] by {
            assert(buf@.contains(buf@[b]));
        }
        lemma_no_dup_in_concat(found, buf@);
        assert forall|j: int| found.len() <= j < items@.len() implies can_draw(color, t as int, #[trigger] items@[j]) by {
            assert(items@[j] == buf@[j - found.len()]);
            assert(buf@.contains(buf@[j - found.len()]));
        }
    }
}

/// Whether sphere `t` starts a new pool shuffle.
fn starts_pool(colors: &Vec<Colors>, t: usize) -> (r: bool)
    requires
        t < colors@.len(),
    ensures
        r == (t == 0 || colors@[t as int] != colors@[t - 1]),
{
    t == 0 || colors[t] != colors[t - 1]
}

/// How many times a run with these sphere colors shuffles its pool.
pub fn reshuffle_count(colors: &Vec<Colors>) -> (r: usize)
    requires
        colors@.len() == TS_COUNT,
    ensures
        r == reshuffles(colors@),
{
    let mut n: usize = 0;
    let mut t: usize = 0;
    while t < TS_COUNT
        invariant
            colors@.len() == TS_COUNT,
            t <= TS_COUNT,
            n <= t,
            t > 0 ==> n == pool_index(colors@, t - 1) + 1,
            t == 0 ==> n == 0,
        decreases TS_COUNT - t,
    {
        if starts_pool(colors, t) {
            n = n + 1;
        }
        t = t + 1;
    }
    n
}

/// Draws the found-item list of a run from pools shuffled beforehand:
/// `pools[g]` is the pool after its `g`-th shuffle, and sphere `t` draws
/// from `pools[pool_index(colors, t)]`.
pub fn draw_items(colors: &Vec<Colors>, pools: &Vec<Vec<usize>>, player_count: usize) -> (r: Result<
    Vec<usize>,
    ConfigError,
>)
    requires
        colors@.len() == TS_COUNT,
        pools@.len() == reshuffles(colors@),
        forall|g: int| 0 <= g < pools@.len() ==> is_item_pool(#[trigger] pools@[g]@),
    ensures
        match r {
            Ok(items) => {
                &&& valid_player_count(player_count as int)
                &&& drawn_by(
                    colors@,
                    pool_views(pools@),
                    counts_for(player_count as int),
                    items@,
                )
                &&& valid_run(colors@, counts_for(player_count as int), items@)
            },
            Err(e) => !valid_player_count(player_count as int) && e
                == ConfigError::InvalidPlayerCount(player_count),
        },
{
    let counts = loot_counts(player_count)?;
    let ghost pc = player_count as int;
    let ghost views = pool_views(pools@);
    let mut items: Vec<usize> = Vec::new();
    let mut g: usize = 0;
    let mut t: usize = 0;
    while t < TS_COUNT
        invariant
            colors@.len() == TS_COUNT,
            pools@.len() == reshuffles(colors@),
            forall|g: int| 0 <= g < pools@.len() ==> is_item_pool(#[trigger] pools@[g]@),
            views == pool_views(pools@),
            valid_player_count(pc),
            pc == player_count,
            counts@ == counts_for(pc),
            t <= TS_COUNT,
            t > 0 ==> g == pool_index(colors@, t - 1),
            t == 0 ==> g == 0,
            g <= t,
            items@.len() == prefix_sum(counts@, t as int),
            items@.no_duplicates(),
            forall|u: int| 0 <= u < t ==> #[trigger] sphere_drawn(colors@, views, counts@, items@, u),
            forall|u: int, j: int|
                0 <= u < t && prefix_sum(counts@, u) <= j < prefix_sum(counts@, u + 1)
                    ==> #[trigger] can_draw(colors@[u], u, items@[j]),
        decreases TS_COUNT - t,
    {
        proof {
            lemma_counts_bounds(pc, t as int);
            lemma_pool_index_monotonic(colors@, t as int, TS_COUNT - 1);
        }
        if t > 0 && starts_pool(colors, t) {
            g = g + 1;
        }
        assert(g == pool_index(colors@, t as int));
        let ghost before = items@;
        draw_sphere(&pools[g], colors[t], t, &mut items, counts[t]);
        proof {
            let lo = prefix_sum(counts@, t as int);
            assert(views[g as int] == pools@[g as int]@);
            assert(items@.subrange(lo, lo + counts@[t as int]) =~= items@.skip(lo));
            assert(items@.take(lo) == before);
            assert(sphere_drawn(colors@, views, counts@, items@, t as int));
            assert forall|u: int| 0 <= u < t implies #[trigger] sphere_drawn(colors@, views, counts@, items@, u) by {
                lemma_counts_bounds(pc, u);
                lemma_prefix_le(pc, u + 1, t as int);
                let a = prefix_sum(counts@, u);
                let b = prefix_sum(counts@, u + 1);
                assert(sphere_drawn(colors@, views, counts@, before, u));
                assert(items@.subrange(a, b) =~= before.subrange(a, b));
                assert(items@.take(a) =~= before.take(a));
            }
            assert forall|u: int, j: int|
                0 <= u <= t && prefix_sum(counts@, u) <= j < prefix_sum(counts@, u + 1)
                    implies #[trigger] can_draw(colors@[u], u, items@[j]) by {
                if u < t {
                    lemma_counts_bounds(pc, u);
                    lemma_prefix_le(pc, u + 1, t as int);
                    assert(items@.take(before.len() as int)[j] == items@[j]);
                }
            }
        }
        t = t + 1;
    }
    Ok(items)
}

/// A copy of `v`.
fn copy_pool(v: &Vec<usize>) -> (r: Vec<usize>)
    ensures
        r@ == v@,
{
    let mut r: Vec<usize> = Vec::new();
    let mut i: usize = 0;
    while i < v.len()
        invariant
            i <= v@.len(),
            r@ == v@.take(i as int),
        decreases v.len() - i,
    {
        r.push(v[i]);
        assert(v@.take(i + 1) =~= v@.take(i as int).push(v@[i as int]));
        i = i + 1;
    }
    assert(v@.take(i as int) =~= v@);
    r
}

/// Draws the found-item list of a run whose spheres have the colors
/// `colors`, shuffling the pool with `rng` before the first sphere and
/// before each sphere whose color differs from the previous one. An invalid
/// player count is refused before `rng` is touched.
pub fn generate_it(colors: &Vec<Colors>, rng: &mut ChaCha8Rng, player_count: usize) -> (r: Result<
    Vec<usize>,
    ConfigError,
>)
    requires
        colors@.len() == TS_COUNT,
    ensures
        match r {
            Ok(items) => {
                &&& valid_player_count(player_count as int)
                &&& valid_run(colors@, counts_for(player_count as int), items@)
                &&& drawn_by(
                    colors@,
                    pools_drawn(*old(rng), colors@),
                    counts_for(player_count as int),
                    items@,
                )
                &&& *final(rng) == stream_after_pools(*old(rng), colors@)
                &&& pools_drawn(*old(rng), colors@).len() == reshuffles(colors@)
                &&& forall|g: int|
                    0 <= g < reshuffles(colors@) ==> is_item_pool(
                        #[trigger] pools_drawn(*old(rng), colors@)[g],
                    )
            },
            Err(e) => {
                &&& !valid_player_count(player_count as int)
                &&& e == ConfigError::InvalidPlayerCount(player_count)
                &&& *final(rng) == *old(rng)
            },
        },
{
    if player_count < 1 || player_count > 4 {
        return Err(ConfigError::InvalidPlayerCount(player_count));
    }
    let mut pool: Vec<usize> = Vec::new();
    let mut i: usize = 0;
    while i < IT_COUNT
        invariant
            i <= IT_COUNT,
            pool@ == catalog().take(i as int),
        decreases IT_COUNT - i,
    {
        pool.push(i);
        assert(catalog().take(i + 1) =~= catalog().take(i as int).push(i));
        i = i + 1;
    }
    assert(pool@ =~= catalog());
    let ghost start = *rng;
    let mut pools: Vec<Vec<usize>> = Vec::new();
    let mut t: usize = 0;
    assert(pool_views(pools@) =~= Seq::<Seq<usize>>::empty());
    while t < TS_COUNT
        invariant
            colors@.len() == TS_COUNT,
            t <= TS_COUNT,
            pool_shuffles(start, catalog(), pools@.len() as nat) == (pool_views(pools@), *rng),
            pools@.len() == 0 ==> pool@ == catalog(),
            pools@.len() > 0 ==> pool@ == pools@.last()@,
            is_item_pool(pool@),
            forall|g: int| 0 <= g < pools@.len() ==> is_item_pool(#[trigger] pools@[g]@),
            t > 0 ==> pools@.len() == pool_index(colors@, t - 1) + 1,
            t == 0 ==> pools@.len() == 0,
            pools@.len() <= t,
        decreases TS_COUNT - t,
    {
        if starts_pool(colors, t) {
            let ghost before = pools@;
            shuffle_in_place(&mut pool, rng);
            pools.push(copy_pool(&pool));
            proof {
                assert(pools@.len() > 1 ==> before.last()@ == pool_views(before).last());
                assert(pool_views(pools@) =~= pool_views(before).push(pool@));
            }
        }
        t = t + 1;
    }
    let r = draw_items(colors, &pools, player_count);
    proof {
        let views = pool_views(pools@);
        assert forall|g: int| 0 <= g < views.len() implies is_item_pool(#[trigger] views[g]) by {
            assert(views[g] == pools@[g]@);
        }
        assert(views == pools_drawn(start, colors@));
        assert(views.len() == reshuffles(colors@));
    }
    r
}

proof fn lemma_pool_index_monotonic(colors: Seq<Colors>, a: int, b: int)
    requires
        0 <= a <= b,
    ensures
        pool_index(colors, a) <= pool_index(colors, b),
    decreases b - a,
{
    if a < b {
        lemma_pool_index_monotonic(colors, a, b - 1);
    }
}

} // verus!
