//! Random samples from a source that is read once.
//!
//! The random numbers come from `rand` and `rand_xoshiro`, into which the
//! verifier does not look: all that is known of a random number is that it
//! lies in the range that was asked for.

use vstd::prelude::*;
use vstd::std_specs::iter::IteratorSpec;
use rand::Rng;
use rand::SeedableRng;
use rand_xoshiro::Xoshiro256StarStar;

verus! {

/// The generator `Xoshiro256StarStar` of `rand_xoshiro`. Nothing is known
/// of the state of a generator.
#[verifier::external_type_specification]
#[verifier::external_body]
pub struct ExXoshiro256StarStar(Xoshiro256StarStar);

/// The generator that `SeedableRng::seed_from_u64` of `Xoshiro256StarStar`
/// makes from a seed. Its state is worked out from the seed alone, by a fixed
/// run of `SplitMix64`; what the state is, is not said here.
pub uninterp spec fn generator_seeded_with(seed: u64) -> Xoshiro256StarStar;

/// `SeedableRng::seed_from_u64` of `Xoshiro256StarStar`: the generator that
/// the seed gives, the same for the same seed at every call.
#[verifier::external_body]
pub(crate) fn seeded_generator(seed: u64) -> (rng: Xoshiro256StarStar)
    ensures
        rng == generator_seeded_with(seed),
{
    Xoshiro256StarStar::seed_from_u64(seed)
}

/// `Rng::gen_range` on the range `0..bound`: some number below `bound`. The
/// call panics on an empty range, so `bound` must not be zero.
#[verifier::external_body]
pub(crate) fn random_below(rng: &mut Xoshiro256StarStar, bound: usize) -> (r: usize)
    requires
        bound > 0,
    ensures
        r < bound,
{
    rng.gen_range(0..bound)
}

/// `picks` names a different item of `items` for each item of `sample`.
pub open spec fn is_selection<T>(sample: Seq<T>, items: Seq<T>, picks: Seq<int>) -> bool {
    &&& picks.len() == sample.len()
    &&& forall|i: int|
        0 <= i < sample.len() ==> 0 <= #[trigger] picks[i] < items.len() && sample[i]
            == items[picks[i]]
    &&& forall|i: int, j: int|
        0 <= i < j < sample.len() ==> #[trigger] picks[i] != #[trigger] picks[j]
}

/// `sample` is made of items of `items`, none of them taken twice.
pub open spec fn is_sample_of<T>(sample: Seq<T>, items: Seq<T>) -> bool {
    exists|picks: Seq<int>| is_selection(sample, items, picks)
}

/// Takes `sample` into a reservoir of `k` items when the number `j` that
/// was drawn for it is one of the `k` places: the item at place `j` gives
/// way. With any other number the reservoir stays as it is.
pub fn place_in_reservoir<T>(samples: &mut Vec<T>, k: usize, j: usize, sample: T)
    requires
        k <= old(samples)@.len(),
    ensures
        final(samples)@ == if j < k {
            old(samples)@.update(j as int, sample)
        } else {
            old(samples)@
        },
{
    if j < k {
        samples.set(j, sample);
    }
}

/// Draws `k` of the items of `source` at random, each item with the same
/// chance, in one pass. Where `source` has no more than `k` items, the
/// sample is all of them, in their order.
pub fn reservoir_sample<T, I: Iterator<Item = T>>(
    rng: &mut Xoshiro256StarStar,
    source: I,
    k: usize,
) -> (samples: Vec<T>)
    requires
        source.obeys_prophetic_iter_laws(),
        source.decrease() is Some,
        k + source.remaining().len() < usize::MAX,
    ensures
        samples@.len() == if source.remaining().len() < k {
            source.remaining().len()
        } else {
            k as nat
        },
        is_sample_of(samples@, source.remaining()),
        source.remaining().len() <= k ==> samples@ == source.remaining(),
{
    let ghost items = source.remaining();
    let mut source = source;
    let mut samples: Vec<T> = Vec::new();
    let ghost mut picks: Seq<int> = Seq::empty();

    let mut n: usize = 0;
    while n < k
        invariant
            n <= k,
            source.obeys_prophetic_iter_laws(),
            source.decrease() is Some,
            source.remaining() == items.skip(n as int),
            n <= items.len(),
            samples@ == items.take(n as int),
        ensures
            n <= k,
            n <= items.len(),
            n < k ==> n == items.len(),
            source.obeys_prophetic_iter_laws(),
            source.decrease() is Some,
            source.remaining() == items.skip(n as int),
            samples@ == items.take(n as int),
        decreases k - n,
    {
        match source.next() {
            Some(x) => {
                samples.push(x);
                assert(items.skip(n as int).drop_first() =~= items.skip(n + 1));
                assert(samples@ =~= items.take(n + 1));
                n += 1;
            },
            None => {
                break ;
            },
        }
    }
    proof {
        picks = Seq::new(n as nat, |i: int| i);
    }
    assert(is_selection(samples@, items, picks));

    let mut i: usize = k + 1;
    let ghost mut seen: int = n as int;
    loop
        invariant
            source.obeys_prophetic_iter_laws(),
            source.decrease() is Some,
            n <= k,
            n < k ==> seen == items.len(),
            n <= seen <= items.len(),
            source.remaining() == items.skip(seen),
            i == k + 1 + (seen - n),
            k + items.len() < usize::MAX,
            samples@.len() == n,
            n == items.len() ==> samples@ == items,
            is_selection(samples@, items, picks),
            forall|m: int| 0 <= m < picks.len() ==> #[trigger] picks[m] < seen,
        decreases source.decrease()->0,
    {
        match source.next() {
            Some(sample) => {
                let j: usize = random_below(rng, i);
                place_in_reservoir(&mut samples, k, j, sample);
                proof {
                    if j < k {
                        picks = picks.update(j as int, seen);
                    }
                }
                assert(items.skip(seen).drop_first() =~= items.skip(seen + 1));
                proof {
                    seen = seen + 1;
                }
                i += 1;
            },
            None => {
                break ;
            },
        }
    }
    assert(items.len() <= k ==> items.take(n as int) =~= items);
    samples
}

/// The item to keep when `sample` comes along and the number `j` was drawn
/// for it: `sample` for the number zero, `chosen` for any other.
pub fn keep_or_replace<T>(chosen: T, j: usize, sample: T) -> (kept: T)
    ensures
        kept == if j == 0 {
            sample
        } else {
            chosen
        },
{
    if j == 0 {
        sample
    } else {
        chosen
    }
}

/// Draws one of the items of `source` at random, each item with the same
/// chance, in one pass; `None` where there is no item.
pub fn reservoir_sample_one<T, I: Iterator<Item = T>>(
    rng: &mut Xoshiro256StarStar,
    source: I,
) -> (chosen: Option<T>)
    requires
        source.obeys_prophetic_iter_laws(),
        source.decrease() is Some,
        source.remaining().len() < usize::MAX,
    ensures
        chosen is Some <==> source.remaining().len() > 0,
        chosen matches Some(item) ==> source.remaining().contains(item),
        source.remaining().len() == 1 ==> chosen == Some(source.remaining()[0]),
{
    let ghost items = source.remaining();
    let mut source = source;
    let mut chosen = match source.next() {
        Some(first) => first,
        None => {
            return None;
        },
    };
    assert(items[0] == chosen);

    let mut i: usize = 2;
    let ghost mut seen: int = 1;
    loop
        invariant
            source.obeys_prophetic_iter_laws(),
            source.decrease() is Some,
            1 <= seen <= items.len(),
            source.remaining() == items.skip(seen),
            i == seen + 1,
            items.len() < usize::MAX,
            items.contains(chosen),
            seen == 1 ==> chosen == items[0],
        ensures
            items.contains(chosen),
            items.len() == 1 ==> chosen == items[0],
        decreases source.decrease()->0,
    {
        match source.next() {
            Some(sample) => {
                let j: usize = random_below(rng, i);
                assert(items[seen] == sample);
                chosen = keep_or_replace(chosen, j, sample);
                assert(items.skip(seen).drop_first() =~= items.skip(seen + 1));
                proof {
                    seen = seen + 1;
                }
                i += 1;
            },
            None => {
                break ;
            },
        }
    }
    Some(chosen)
}

} // verus!
