//! The reducer on machine integers.
//!
//! An operation must accept every pair of values, so on `u64` addition and
//! multiplication are taken modulo `2^64`, as `wrapping_add` and
//! `wrapping_mul` compute them. Reducing by either gives the sum or the
//! product of the input, modulo `2^64`.
//!
//! A caller that sums a vector learns the result in two steps: it names the
//! function that its operation computes, and hands the reduction to the law.
//!
//! ```text
//! let add = |a: u64, b: u64| -> (r: u64)
//!     ensures r == a.wrapping_add(b)
//!     { a.wrapping_add(b) };
//! let ghost f = |a: u64, b: u64| a.wrapping_add(b);
//! let ghost items = data@;
//! let total = parallel_binary_operation_with_workers(data, add, 4);
//! proof {
//!     assert(models(add, f, 0u64));
//!     lemma_reduces_to_sum(f, items, 4, total);
//! }
//! ```

use vstd::arithmetic::div_mod::{lemma_add_mod_noop, lemma_mul_mod_noop_general, lemma_small_mod};
use vstd::prelude::*;
use crate::identity::inferred_identity;
use crate::operation::monoid;
use crate::reduce::{lemma_reduces_is_fold, reduces};

verus! {

/// `2^64`, the number of values of a `u64`.
pub open spec fn modulus() -> int {
    0x1_0000_0000_0000_0000
}

/// `f` is addition modulo `2^64`.
pub open spec fn is_addition(f: spec_fn(u64, u64) -> u64) -> bool {
    forall|a: u64, b: u64| #[trigger] f(a, b) == (a + b) % modulus()
}

/// `f` is multiplication modulo `2^64`.
pub open spec fn is_multiplication(f: spec_fn(u64, u64) -> u64) -> bool {
    forall|a: u64, b: u64| #[trigger] f(a, b) == (a * b) % modulus()
}

/// The sum of the elements, as a mathematical integer.
pub open spec fn sum(s: Seq<u64>) -> int
    decreases s.len(),
{
    if s.len() == 0 {
        0
    } else {
        sum(s.drop_last()) + s.last()
    }
}

/// The product of the elements, as a mathematical integer.
pub open spec fn product(s: Seq<u64>) -> int
    decreases s.len(),
{
    if s.len() == 0 {
        1
    } else {
        product(s.drop_last()) * s.last()
    }
}

/// Addition modulo `2^64` is associative, `0` is its neutral element, and
/// `0` is the seed inferred for it.
pub proof fn lemma_addition_is_monoid(f: spec_fn(u64, u64) -> u64, zero: u64)
    requires
        is_addition(f),
    ensures
        monoid(f, 0u64),
        inferred_identity(f, zero) == 0,
{
    assert forall|a: u64, b: u64, c: u64| #[trigger] f(f(a, b), c) == f(a, f(b, c)) by {
        let m = modulus();
        lemma_add_mod_noop(a + b, c as int, m);
        lemma_add_mod_noop(a as int, b + c, m);
        lemma_small_mod(a as nat, m as nat);
        lemma_small_mod(c as nat, m as nat);
    }
    assert forall|x: u64| #[trigger] f(0u64, x) == x && #[trigger] f(x, 0u64) == x by {
        lemma_small_mod(x as nat, modulus() as nat);
    }
}

/// Multiplication modulo `2^64` is associative, `1` is its neutral element,
/// and `1` is the seed inferred for it.
pub proof fn lemma_multiplication_is_monoid(f: spec_fn(u64, u64) -> u64, zero: u64)
    requires
        is_multiplication(f),
    ensures
        monoid(f, 1u64),
        inferred_identity(f, zero) == 1,
{
    assert forall|a: u64, b: u64, c: u64| #[trigger] f(f(a, b), c) == f(a, f(b, c)) by {
        let m = modulus();
        lemma_mul_mod_noop_general(a * b, c as int, m);
        lemma_mul_mod_noop_general(a as int, b * c, m);
        assert((a * b) * c == a * (b * c)) by (nonlinear_arith);
        assert(f(f(a, b), c) == (f(a, b) * c) % m);
    }
    assert forall|x: u64| #[trigger] f(1u64, x) == x && #[trigger] f(x, 1u64) == x by {
        lemma_small_mod(x as nat, modulus() as nat);
        assert(1 * x == x && x * 1 == x);
    }
    assert(f(8u64, 8u64) == 64);
}

/// Folding by addition modulo `2^64` from `0` gives the sum modulo `2^64`.
pub proof fn lemma_fold_is_sum(f: spec_fn(u64, u64) -> u64, s: Seq<u64>)
    requires
        is_addition(f),
    ensures
        s.fold_left(0u64, f) == sum(s) % modulus(),
    decreases s.len(),
{
    if s.len() > 0 {
        lemma_fold_is_sum(f, s.drop_last());
        lemma_add_mod_noop(sum(s.drop_last()), s.last() as int, modulus());
        lemma_small_mod(s.last() as nat, modulus() as nat);
    }
}

/// Folding by multiplication modulo `2^64` from `1` gives the product
/// modulo `2^64`.
pub proof fn lemma_fold_is_product(f: spec_fn(u64, u64) -> u64, s: Seq<u64>)
    requires
        is_multiplication(f),
    ensures
        s.fold_left(1u64, f) == product(s) % modulus(),
    decreases s.len(),
{
    if s.len() > 0 {
        lemma_fold_is_product(f, s.drop_last());
        lemma_mul_mod_noop_general(product(s.drop_last()), s.last() as int, modulus());
    }
}

/// Reducing by addition gives the sum of the input, modulo `2^64`: the sum
/// itself where it fits in a `u64`.
pub proof fn lemma_reduces_to_sum(
    f: spec_fn(u64, u64) -> u64,
    data: Seq<u64>,
    workers: nat,
    result: u64,
)
    requires
        workers > 0,
        is_addition(f),
        reduces(f, 0u64, data, workers, result),
    ensures
        result == sum(data) % modulus(),
        sum(data) <= u64::MAX ==> result == sum(data),
{
    lemma_addition_is_monoid(f, 0u64);
    lemma_fold_is_sum(f, data);
    if data.len() > 0 {
        lemma_reduces_is_fold(f, 0u64, data, workers, result);
    }
    lemma_sum_is_natural(data);
    if sum(data) <= u64::MAX {
        lemma_small_mod(sum(data) as nat, modulus() as nat);
    }
}

/// Reducing an input that is not empty by multiplication gives the product
/// of the input, modulo `2^64`: the product itself where it fits in a `u64`.
pub proof fn lemma_reduces_to_product(
    f: spec_fn(u64, u64) -> u64,
    data: Seq<u64>,
    workers: nat,
    result: u64,
)
    requires
        workers > 0,
        data.len() > 0,
        is_multiplication(f),
        reduces(f, 0u64, data, workers, result),
    ensures
        result == product(data) % modulus(),
        product(data) <= u64::MAX ==> result == product(data),
{
    lemma_multiplication_is_monoid(f, 0u64);
    lemma_fold_is_product(f, data);
    lemma_reduces_is_fold(f, 0u64, data, workers, result);
    lemma_product_is_natural(data);
    if product(data) <= u64::MAX {
        lemma_small_mod(product(data) as nat, modulus() as nat);
    }
}

/// A sum of `u64` values is not negative.
proof fn lemma_sum_is_natural(s: Seq<u64>)
    ensures
        sum(s) >= 0,
    decreases s.len(),
{
    if s.len() > 0 {
        lemma_sum_is_natural(s.drop_last());
    }
}

/// A product of `u64` values is not negative.
proof fn lemma_product_is_natural(s: Seq<u64>)
    ensures
        product(s) >= 0,
    decreases s.len(),
{
    if s.len() > 0 {
        lemma_product_is_natural(s.drop_last());
        assert(product(s.drop_last()) * s.last() >= 0) by (nonlinear_arith)
            requires
                product(s.drop_last()) >= 0,
                s.last() >= 0,
        ;
    }
}

} // verus!
