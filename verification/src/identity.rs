//! Inferring the seed of a reduction from the operation itself.
//!
//! The operation is tried once, on the pair `(8, 8)`, and the result is
//! compared with what the four arithmetic operations give there:
//!
//! | `op(8, 8)` | taken for      | seed |
//! |------------|----------------|------|
//! | `16`       | addition       | `0`  |
//! | `64`       | multiplication | `1`  |
//! | `0`        | subtraction    | `0`  |
//! | `1`        | division       | `1`  |
//!
//! Anything else falls back to the type's default value. The seed is only as
//! good as this guess: for an operation of another kind it need not be
//! neutral at all.

use vstd::prelude::*;
use vstd::std_specs::cmp::PartialEqSpec;
use vstd::std_specs::convert::FromSpec;
use crate::operation::{computes, total};

verus! {

/// Converting from `u8` and comparing for equality are functions on `T`:
/// `from_spec` and `eq_spec` say what they return.
pub open spec fn lawful<T: PartialEq + From<u8>>() -> bool {
    T::obeys_from_spec() && T::obeys_eq_spec()
}

/// The element that stands for the small number `n`.
pub open spec fn small<T: From<u8>>(n: u8) -> T {
    T::from_spec(n)
}

/// `v` is a value that `T::default()` may return.
pub open spec fn is_default<T: Default>(v: T) -> bool {
    call_ensures(T::default, (), v)
}

/// `T::default()` returns `zero` and nothing else.
pub open spec fn default_is<T: Default>(zero: T) -> bool {
    forall|v: T| #[trigger] is_default(v) ==> v == zero
}

/// What the operation gives on the probe pair `(8, 8)`.
pub open spec fn probe<T: From<u8>>(f: spec_fn(T, T) -> T) -> T {
    f(small(8), small(8))
}

/// The seed chosen for an operation that gave `probed` on the probe pair,
/// where `zero` is the type's default value.
pub open spec fn seed_for<T: PartialEq + From<u8>>(probed: T, zero: T) -> T {
    if probed.eq_spec(&small(16)) {
        small(0)
    } else if probed.eq_spec(&small(64)) {
        small(1)
    } else if probed.eq_spec(&small(0)) {
        small(0)
    } else if probed.eq_spec(&small(1)) {
        small(1)
    } else {
        zero
    }
}

/// The seed inferred for the operation `f`.
pub open spec fn inferred_identity<T: PartialEq + From<u8>>(f: spec_fn(T, T) -> T, zero: T) -> T {
    seed_for(probe(f), zero)
}

/// `f` and `zero` describe the operation and the element type: the element
/// type is [`lawful`], the operation computes `f`, and the default value is
/// `zero`.
pub open spec fn models<T: Default + PartialEq + From<u8>, F: Fn(T, T) -> T>(
    operation: F,
    f: spec_fn(T, T) -> T,
    zero: T,
) -> bool {
    lawful::<T>() && computes(operation, f) && default_is(zero)
}

/// Infers the seed of a reduction by `operation`: calls it once, on `(8, 8)`,
/// and picks `0`, `1` or the default value by what comes back.
pub fn get_initial_value<T, F>(operation: &F) -> (seed: T) where
    T: Copy + Send + Sync + 'static + Default + PartialEq + From<u8>,
    F: Fn(T, T) -> T,

    requires
        total(*operation),
    ensures
        forall|f: spec_fn(T, T) -> T, zero: T| #[trigger]
            models(*operation, f, zero) ==> seed == inferred_identity(f, zero),
{
    let test_result = operation(T::from(8u8), T::from(8u8));
    if test_result == T::from(16u8) {
        T::from(0u8)
    } else if test_result == T::from(64u8) {
        T::from(1u8)
    } else if test_result == T::from(0u8) {
        T::from(0u8)
    } else if test_result == T::from(1u8) {
        T::from(1u8)
    } else {
        let zero = T::default();
        assert(is_default(zero));
        zero
    }
}

} // verus!
