//! The mathematical side of a binary operation.
//!
//! An executable operation is any `Fn(T, T) -> T`. Contracts never speak of
//! the callable itself: they speak of every mathematical function that it
//! computes, and the algebra (associativity, identity, folds) is stated over
//! such functions.

use vstd::prelude::*;

verus! {

/// The operation may be called on every pair of values.
pub open spec fn total<T, F: Fn(T, T) -> T>(operation: F) -> bool {
    forall|a: T, b: T| call_requires(operation, (a, b))
}

/// Whatever the operation returns on `(a, b)` is `f(a, b)`: the operation is
/// a pure function, and `f` is that function.
pub open spec fn computes<T, F: Fn(T, T) -> T>(operation: F, f: spec_fn(T, T) -> T) -> bool {
    forall|a: T, b: T, r: T| #[trigger] call_ensures(operation, (a, b), r) ==> r == f(a, b)
}

/// `f(f(a, b), c) == f(a, f(b, c))` for all values.
pub open spec fn associative<T>(f: spec_fn(T, T) -> T) -> bool {
    forall|a: T, b: T, c: T| #[trigger] f(f(a, b), c) == f(a, f(b, c))
}

/// `e` is neutral on the left: `f(e, x) == x`.
pub open spec fn left_identity<T>(f: spec_fn(T, T) -> T, e: T) -> bool {
    forall|x: T| #[trigger] f(e, x) == x
}

/// `e` is neutral on the right: `f(x, e) == x`.
pub open spec fn right_identity<T>(f: spec_fn(T, T) -> T, e: T) -> bool {
    forall|x: T| #[trigger] f(x, e) == x
}

/// `e` is neutral on both sides.
pub open spec fn identity<T>(f: spec_fn(T, T) -> T, e: T) -> bool {
    left_identity(f, e) && right_identity(f, e)
}

/// An associative operation together with its neutral element.
pub open spec fn monoid<T>(f: spec_fn(T, T) -> T, e: T) -> bool {
    associative(f) && identity(f, e)
}

/// Folding a concatenation is combining the folds of its two parts.
pub proof fn lemma_fold_concat<T>(f: spec_fn(T, T) -> T, e: T, left: Seq<T>, right: Seq<T>)
    requires
        associative(f),
        right_identity(f, e),
    ensures
        (left + right).fold_left(e, f) == f(left.fold_left(e, f), right.fold_left(e, f)),
    decreases right.len(),
{
    if right.len() > 0 {
        let init = right.drop_last();
        lemma_fold_concat(f, e, left, init);
        assert((left + right).drop_last() =~= left + init);
        assert(f(f(left.fold_left(e, f), init.fold_left(e, f)), right.last())
            == f(left.fold_left(e, f), f(init.fold_left(e, f), right.last())));
    }
}

} // verus!
