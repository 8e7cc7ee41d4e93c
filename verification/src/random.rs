//! The random choices that password generation leaves to the `rand` crate.

use rand::seq::{IndexedRandom, SliceRandom};
use vstd::prelude::*;

verus! {

/// The thread-local random generator of `rand`, carried through unchanged.
#[verifier::external_type_specification]
#[verifier::external_body]
pub struct ExThreadRng(rand::rngs::ThreadRng);

/// Calls `rand::rng()`, which hands out the thread-local generator seeded
/// from the operating system. Nothing is claimed of its state. `rand`
/// panics inside this call when the operating system cannot supply a seed;
/// no argument can rule that out.
#[verifier::external_body]
pub(crate) fn thread_rng() -> rand::rngs::ThreadRng {
    rand::rng()
}

/// Calls `IndexedRandom::choose` on `chars`. Its source returns `None` for
/// an empty slice and otherwise a reference to the element at an index drawn
/// below the length, so the result is `None` exactly when `chars` is empty and
/// is otherwise one of its elements. Which element comes back is left open.
#[verifier::external_body]
pub(crate) fn choose_char(chars: &[char], rng: &mut rand::rngs::ThreadRng) -> (res: Option<char>)
    ensures
        res is None <==> chars@.len() == 0,
        res matches Some(c) ==> chars@.contains(c),
{
    chars.choose(rng).copied()
}

/// Calls `SliceRandom::shuffle` on `order`. Its source permutes the slice
/// in place by swaps (a Fisher-Yates shuffle), so the new contents hold the
/// same values, each as often as before. The order that results is left
/// open.
#[verifier::external_body]
pub(crate) fn shuffle_order(order: &mut Vec<usize>, rng: &mut rand::rngs::ThreadRng)
    ensures
        final(order)@.to_multiset() == old(order)@.to_multiset(),
{
    order.as_mut_slice().shuffle(rng)
}

/// The random generator, together with the record of every decision taken
/// through it. Only the methods below take decisions, and each one is
/// recorded as it is taken.
pub struct RandomSource {
    rng: rand::rngs::ThreadRng,
    choices: Ghost<Seq<(Seq<char>, char)>>,
    shuffles: Ghost<Seq<(Seq<usize>, Seq<usize>)>>,
}

impl RandomSource {
    /// The characters chosen through this source so far, oldest first, each
    /// with the pool it was chosen from.
    pub closed spec fn choices(&self) -> Seq<(Seq<char>, char)> {
        self.choices@
    }

    /// The reorderings made through this source so far, oldest first, each
    /// as the list before and after.
    pub closed spec fn shuffles(&self) -> Seq<(Seq<usize>, Seq<usize>)> {
        self.shuffles@
    }

    /// A source over the thread-local generator, with no decision taken yet.
    pub fn new() -> (res: RandomSource)
        ensures
            res.choices() == Seq::<(Seq<char>, char)>::empty(),
            res.shuffles() == Seq::<(Seq<usize>, Seq<usize>)>::empty(),
    {
        RandomSource { rng: thread_rng(), choices: Ghost(Seq::empty()), shuffles: Ghost(Seq::empty()) }
    }

    /// A character chosen at random from the non-empty `pool`, with the
    /// choice recorded.
    pub fn choose_from(&mut self, pool: &[char]) -> (res: char)
        requires
            pool@.len() > 0,
        ensures
            pool@.contains(res),
            final(self).choices() == old(self).choices().push((pool@, res)),
            final(self).shuffles() == old(self).shuffles(),
    {
        match choose_char(pool, &mut self.rng) {
            Some(c) => {
                proof {
                    self.choices@ = self.choices@.push((pool@, c));
                }
                c
            },
            None => unreached(),
        }
    }

    /// Puts `order` into a random order, keeping each value as often as
    /// before, with the reordering recorded.
    pub fn shuffle(&mut self, order: &mut Vec<usize>)
        ensures
            final(order)@.to_multiset() == old(order)@.to_multiset(),
            final(self).shuffles() == old(self).shuffles().push((old(order)@, final(order)@)),
            final(self).choices() == old(self).choices(),
    {
        let ghost before = order@;
        shuffle_order(order, &mut self.rng);
        proof {
            self.shuffles@ = self.shuffles@.push((before, order@));
        }
    }
}

} // verus!
