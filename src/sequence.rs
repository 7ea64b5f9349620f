//! The sequence generator: the colors of the six spheres of a run, read off
//! a shuffle of eight weighted draw slots.
use vstd::prelude::*;
use vstd::seq_lib::group_to_multiset_ensures;

use crate::colors::Colors;
use crate::loot::TS_COUNT;
use crate::stream::{rearranged, shuffle_in_place, shuffle_outcome};
use rand_chacha::ChaCha8Rng;

verus! {

broadcast use group_to_multiset_ensures;

/// Number of weighted draw slots.
pub const SLOT_COUNT: u8 = 8;

/// The draw slots in order: `0, 1, ..., 7`.
pub open spec fn slot_order() -> Seq<u8> {
    Seq::new(SLOT_COUNT as nat, |i: int| i as u8)
}

/// An arrangement of the eight draw slots, each once.
pub open spec fn is_slot_arrangement(slots: Seq<u8>) -> bool {
    slots.to_multiset() == slot_order().to_multiset()
}

/// The colors of a run whose draw slots came out in the order `slots`:
/// the first six slots, each read as its color.
pub open spec fn colors_of_slots(slots: Seq<u8>) -> Seq<Colors> {
    Seq::new(TS_COUNT as nat, |i: int| Colors::of_slot(slots[i] as int))
}

/// The sphere colors that a stream in state `rng` yields: the eight slots
/// shuffled by it, the first six read as colors.
pub open spec fn colors_drawn_from(rng: ChaCha8Rng) -> Seq<Colors> {
    colors_of_slots(rearranged(slot_order(), shuffle_outcome(rng, SLOT_COUNT as nat).0))
}

/// The stream's state after the colors of a run were drawn from `rng`.
pub open spec fn stream_after_colors(rng: ChaCha8Rng) -> ChaCha8Rng {
    shuffle_outcome(rng, SLOT_COUNT as nat).1
}

proof fn lemma_slot_arrangement(slots: Seq<u8>)
    requires
        is_slot_arrangement(slots),
    ensures
        slots.len() == SLOT_COUNT,
        slots.no_duplicates(),
        forall|i: int| 0 <= i < slots.len() ==> #[trigger] slots[i] < SLOT_COUNT,
{
    slot_order().lemma_multiset_has_no_duplicates();
    assert forall|x: u8| slots.contains(x) <==> x < SLOT_COUNT by {
        assert(slots.contains(x) <==> slots.to_multiset().count(x) > 0);
        assert(slot_order().contains(x) <==> slot_order().to_multiset().count(x) > 0);
        if x < SLOT_COUNT {
            assert(slot_order()[x as int] == x);
        }
    }
    assert forall|i: int| 0 <= i < slots.len() implies #[trigger] slots[i] < SLOT_COUNT by {
        assert(slots.contains(slots[i]));
    }
    assert forall|x: u8| slots.to_multiset().contains(x) implies slots.to_multiset().count(x)
        == 1 by {
        assert(slot_order().to_multiset().contains(x));
    }
    slots.lemma_multiset_has_no_duplicates_conv();
    assert(slots.len() == slots.to_multiset().len());
    assert(slot_order().len() == slot_order().to_multiset().len());
}

/// The colors of the six spheres, read off the first six of `slots`.
pub fn colors_from_slots(slots: &Vec<u8>) -> (r: Vec<Colors>)
    requires
        slots@.len() >= TS_COUNT,
        forall|i: int| 0 <= i < slots@.len() ==> #[trigger] slots@[i] < SLOT_COUNT,
    ensures
        r@ == colors_of_slots(slots@),
{
    let mut r: Vec<Colors> = Vec::new();
    let mut i: usize = 0;
    while i < TS_COUNT
        invariant
            i <= TS_COUNT,
            slots@.len() >= TS_COUNT,
            forall|j: int| 0 <= j < slots@.len() ==> #[trigger] slots@[j] < SLOT_COUNT,
            r@ == colors_of_slots(slots@).take(i as int),
        decreases TS_COUNT - i,
    {
        r.push(Colors::from_index(slots[i]));
        assert(colors_of_slots(slots@).take(i + 1) =~= colors_of_slots(slots@).take(i as int).push(
            Colors::of_slot(slots@[i as int] as int),
        ));
        i = i + 1;
    }
    assert(colors_of_slots(slots@).take(TS_COUNT as int) =~= colors_of_slots(slots@));
    r
}

/// Draws the colors of the six spheres of a run from `rng`. Normal holds
/// three of the eight slots and each special color one, so a special color
/// occurs at most once in a run.
pub fn generate_ts(rng: &mut ChaCha8Rng) -> (r: Vec<Colors>)
    ensures
        r@.len() == TS_COUNT,
        r@ == colors_drawn_from(*old(rng)),
        *final(rng) == stream_after_colors(*old(rng)),
        exists|slots: Seq<u8>| is_slot_arrangement(slots) && r@ == colors_of_slots(slots),
        forall|i: int, j: int|
            0 <= i < j < r@.len() && r@[i] == r@[j] ==> r@[i] == Colors::Normal,
{
    let mut slots: Vec<u8> = Vec::new();
    let mut s: u8 = 0;
    while s < SLOT_COUNT
        invariant
            s <= SLOT_COUNT,
            slots@ == slot_order().take(s as int),
        decreases SLOT_COUNT - s,
    {
        slots.push(s);
        assert(slot_order().take(s + 1) =~= slot_order().take(s as int).push(s));
        s = s + 1;
    }
    assert(slots@ =~= slot_order());
    let ghost start = *rng;
    shuffle_in_place(&mut slots, rng);
    proof {
        lemma_slot_arrangement(slots@);
    }
    let r = colors_from_slots(&slots);
    proof {
        assert forall|i: int, j: int|
            0 <= i < j < r@.len() && r@[i] == r@[j] implies r@[i] == Colors::Normal by {
            assert(slots@[i] != slots@[j]);
        }
        assert(r@ == colors_drawn_from(start));
    }
    r
}

} // verus!
