//! The random stream that drives a batch of runs, and the calls into it.
use vstd::prelude::*;

use rand::seq::SliceRandom;
use rand::SeedableRng;
use rand_chacha::ChaCha8Rng;

verus! {

/// rand_chacha's `ChaCha8Rng`, opaque to the verifier: its state is only
/// ever handed on to the calls below.
#[verifier::external_type_specification]
#[verifier::external_body]
pub struct ExChaCha8Rng(ChaCha8Rng);

/// What shuffling a slice of `len` items with the stream in state `rng`
/// does: the arrangement of positions it picks (position `i` receives the
/// item that stood at position `order[i]`) and the stream's state after.
/// Both depend on the stream's state and the length alone, not on the items.
pub uninterp spec fn shuffle_outcome(rng: ChaCha8Rng, len: nat) -> (Seq<int>, ChaCha8Rng);

/// The stream that `seed_from_u64` makes of `seed`.
pub uninterp spec fn seeded_stream(seed: u64) -> ChaCha8Rng;

/// The stream that `from_seed` makes of the 32 bytes `seed`.
pub uninterp spec fn stream_of_seed(seed: Seq<u8>) -> ChaCha8Rng;

/// `s` rearranged by `order`: position `i` holds `s[order[i]]`.
pub open spec fn rearranged<A>(s: Seq<A>, order: Seq<int>) -> Seq<A> {
    Seq::new(order.len(), |i: int| s[order[i]])
}

/// Relies on rand's `SliceRandom::shuffle`, a pass of in-place swaps whose
/// positions are drawn from `rng` by the slice's length: the vector keeps the
/// same items, rearranged as the stream's state dictates.
#[verifier::external_body]
pub(crate) fn shuffle_in_place<T>(v: &mut Vec<T>, rng: &mut ChaCha8Rng)
    ensures
        final(v)@.to_multiset() == old(v)@.to_multiset(),
        final(v)@ == rearranged(old(v)@, shuffle_outcome(*old(rng), old(v)@.len()).0),
        *final(rng) == shuffle_outcome(*old(rng), old(v)@.len()).1,
{
    v.shuffle(rng);
}

/// Relies on rand_core's `SeedableRng::seed_from_u64` for `ChaCha8Rng`: the
/// stream is a function of the seed.
#[verifier::external_body]
pub(crate) fn stream_from_u64(seed: u64) -> (r: ChaCha8Rng)
    ensures
        r == seeded_stream(seed),
{
    ChaCha8Rng::seed_from_u64(seed)
}

/// Relies on rand_chacha's `SeedableRng::from_seed` for `ChaCha8Rng`: the
/// stream is a function of the seed bytes.
#[verifier::external_body]
pub(crate) fn stream_from_seed(seed: [u8; 32]) -> (r: ChaCha8Rng)
    ensures
        r == stream_of_seed(seed@),
{
    ChaCha8Rng::from_seed(seed)
}

} // verus!
