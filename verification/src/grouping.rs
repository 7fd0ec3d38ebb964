//! The shapes a parallel reduction may take.
//!
//! A parallel reducer does not promise in which order it combines its items,
//! and it may put the seed in wherever that helps it to split the work. What
//! it does promise is that the items keep their order. A `Grouping` is one
//! such way of bracketing a sequence of items.

use vstd::prelude::*;
use crate::operation::{lemma_fold_concat, monoid};

verus! {

/// One way of bracketing a sequence of items, read from left to right.
pub enum Grouping {
    /// The seed, standing for no item.
    Seed,
    /// The next item of the sequence.
    Item,
    /// The items of the left part, then those of the right part, combined.
    Pair(Box<Grouping>, Box<Grouping>),
}

impl Grouping {
    /// The number of items that the grouping takes from the sequence.
    pub open spec fn items(self) -> nat
        decreases self,
    {
        match self {
            Grouping::Seed => 0,
            Grouping::Item => 1,
            Grouping::Pair(left, right) => left.items() + right.items(),
        }
    }

    /// The value of the grouping over `items`, combined by `f` and seeded
    /// with `seed`.
    pub open spec fn value<T>(self, f: spec_fn(T, T) -> T, seed: T, items: Seq<T>) -> T
        recommends
            self.items() == items.len(),
        decreases self,
    {
        match self {
            Grouping::Seed => seed,
            Grouping::Item => items[0],
            Grouping::Pair(left, right) => f(
                left.value(f, seed, items.take(left.items() as int)),
                right.value(f, seed, items.skip(left.items() as int)),
            ),
        }
    }

    /// The grouping that a sequential left fold of `n` items takes:
    /// `((seed . x0) . x1) . x2 ...`.
    pub open spec fn sequential(n: nat) -> Grouping
        decreases n,
    {
        if n == 0 {
            Grouping::Seed
        } else {
            Grouping::Pair(Box::new(Grouping::sequential((n - 1) as nat)), Box::new(Grouping::Item))
        }
    }
}

/// `result` is what some grouping of `items` gives.
pub open spec fn is_reduction<T>(f: spec_fn(T, T) -> T, seed: T, items: Seq<T>, result: T) -> bool {
    exists|g: Grouping| g.items() == items.len() && #[trigger] g.value(f, seed, items) == result
}

/// For an associative operation seeded with its neutral element, every
/// grouping of the items gives their left fold.
pub proof fn lemma_grouping_is_fold<T>(g: Grouping, f: spec_fn(T, T) -> T, seed: T, items: Seq<T>)
    requires
        monoid(f, seed),
        g.items() == items.len(),
    ensures
        g.value(f, seed, items) == items.fold_left(seed, f),
    decreases g,
{
    match g {
        Grouping::Seed => {},
        Grouping::Item => {
            assert(items.drop_last().fold_left(seed, f) == seed);
        },
        Grouping::Pair(left, right) => {
            let n = left.items() as int;
            lemma_grouping_is_fold(*left, f, seed, items.take(n));
            lemma_grouping_is_fold(*right, f, seed, items.skip(n));
            lemma_fold_concat(f, seed, items.take(n), items.skip(n));
            assert(items.take(n) + items.skip(n) =~= items);
        },
    }
}

/// Every reduction of the items by an associative operation seeded with its
/// neutral element is their left fold.
pub proof fn lemma_reduction_is_fold<T>(f: spec_fn(T, T) -> T, seed: T, items: Seq<T>, result: T)
    requires
        monoid(f, seed),
        is_reduction(f, seed, items, result),
    ensures
        result == items.fold_left(seed, f),
{
    let g = choose|g: Grouping| g.items() == items.len() && #[trigger] g.value(f, seed, items) == result;
    lemma_grouping_is_fold(g, f, seed, items);
}

/// The sequential grouping takes every item and gives the left fold, for any
/// operation and any seed: a left fold is one of the reductions.
pub proof fn lemma_sequential_is_fold<T>(f: spec_fn(T, T) -> T, seed: T, items: Seq<T>)
    ensures
        Grouping::sequential(items.len()).items() == items.len(),
        Grouping::sequential(items.len()).value(f, seed, items) == items.fold_left(seed, f),
        is_reduction(f, seed, items, items.fold_left(seed, f)),
    decreases items.len(),
{
    if items.len() > 0 {
        let init = items.drop_last();
        lemma_sequential_is_fold(f, seed, init);
        let n = (items.len() - 1) as nat;
        let g = Grouping::sequential(items.len());
        let left = Grouping::sequential(n);
        assert(g.items() == left.items() + Grouping::Item.items());
        assert(g.value(f, seed, items) == f(
            left.value(f, seed, items.take(n as int)),
            Grouping::Item.value(f, seed, items.skip(n as int)),
        ));
    }
}

} // verus!
