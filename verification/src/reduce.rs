//! The parallel reducer.
//!
//! The input is cut into one chunk per worker, every chunk is folded from
//! left to right starting from the inferred seed, and the folds of the chunks
//! are combined, in the order of the chunks, by the same operation.

use rayon::iter::ParallelIterator;
use rayon::slice::ParallelSlice;
use vstd::prelude::*;
use crate::chunking::{
    ceil_div, chunk_folds, chunk_size, lemma_chunk_count_le_workers, lemma_fold_of_chunk_folds,
};
use crate::grouping::{is_reduction, lemma_reduction_is_fold};
use crate::identity::{get_initial_value, inferred_identity, is_default, models};
use crate::operation::{computes, monoid, total};

verus! {

/// What a reduction of `data` for `workers` workers may return, where the
/// operation computes `f` and the element type's default value is `zero`:
/// the default value for an empty input, the element itself for a single
/// one, and else some reduction of the folds of the chunks, seeded with the
/// inferred seed.
pub open spec fn reduces<T: PartialEq + From<u8>>(
    f: spec_fn(T, T) -> T,
    zero: T,
    data: Seq<T>,
    workers: nat,
    result: T,
) -> bool
    recommends
        workers > 0,
{
    if data.len() == 0 {
        result == zero
    } else if data.len() == 1 {
        result == data[0]
    } else {
        is_reduction(
            f,
            inferred_identity(f, zero),
            chunk_folds(f, inferred_identity(f, zero), data, ceil_div(data.len(), workers)),
            result,
        )
    }
}

/// Folds `chunk` from left to right, starting from `seed`.
pub fn fold_chunk<T, F>(chunk: &[T], seed: T, operation: &F) -> (acc: T) where
    T: Copy,
    F: Fn(T, T) -> T,

    requires
        total(*operation),
    ensures
        forall|f: spec_fn(T, T) -> T| #[trigger]
            computes(*operation, f) ==> acc == chunk@.fold_left(seed, f),
{
    let mut acc = seed;
    let mut i: usize = 0;
    while i < chunk.len()
        invariant
            i <= chunk.len(),
            total(*operation),
            forall|f: spec_fn(T, T) -> T| #[trigger]
                computes(*operation, f) ==> acc == chunk@.take(i as int).fold_left(seed, f),
        decreases chunk.len() - i,
    {
        let next = operation(acc, chunk[i]);
        proof {
            assert(chunk@.take(i + 1).drop_last() =~= chunk@.take(i as int));
        }
        acc = next;
        i += 1;
    }
    acc
}

/// The number of logical cores of this machine, from `num_cpus::get`.
///
/// Not proved, but taken from its documentation: the number is at least one.
#[verifier::external_body]
fn available_workers() -> (workers: usize)
    ensures
        workers >= 1,
{
    num_cpus::get()
}

/// Folds the chunks of `data` in parallel and combines the folds, through
/// `rayon`'s `par_chunks`, `map` and `reduce`.
///
/// Not proved, but taken from `rayon`:
/// - `par_chunks(size)` yields the pieces of `size` elements in order, the
///   last one shorter where `size` does not divide the length, and panics on
///   a size of zero;
/// - `map` puts, for every piece, what the closure returns in its place: here
///   the piece's left fold from `seed`, by [`fold_chunk`];
/// - `reduce` keeps the items in order and combines them by the operation.
///   How it brackets them is left open: every task folds its run of items
///   starting from the seed, and the results of neighbouring tasks are joined
///   by the operation. So the result is the value of some `Grouping` of the
///   items, the seed for an empty input.
///
/// The claim is made for an operation that is a function of its arguments,
/// and of every function `f` that it computes.
#[verifier::external_body]
fn reduce_chunks<T, F>(data: &Vec<T>, size: usize, seed: T, operation: &F) -> (result: T) where
    T: Copy + Send + Sync,
    F: Fn(T, T) -> T + Sync + Send,

    requires
        size > 0,
        total(*operation),
    ensures
        forall|f: spec_fn(T, T) -> T| #[trigger]
            computes(*operation, f) ==> is_reduction(
                f,
                seed,
                chunk_folds(f, seed, data@, size as nat),
                result,
            ),
{
    data.par_chunks(size).map(|chunk| fold_chunk(chunk, seed, operation)).reduce(
        || seed,
        operation,
    )
}

/// Reduces `data` by `operation`, with chunks sized for `workers` workers.
///
/// An empty input gives the default value and a single element gives
/// itself. Any other input is folded chunk by chunk from the inferred seed,
/// and the folds are combined in order. For an associative operation whose
/// neutral element is the inferred seed, the result is the left fold of the
/// whole input.
pub fn parallel_binary_operation_with_workers<T, F>(
    data: Vec<T>,
    operation: F,
    workers: usize,
) -> (result: T) where
    T: Copy + Send + Sync + 'static + Default + PartialEq + From<u8>,
    F: Fn(T, T) -> T + Sync + Send,

    requires
        workers >= 1,
        total(operation),
    ensures
        data@.len() == 0 ==> is_default(result),
        data@.len() == 1 ==> result == data@[0],
        forall|f: spec_fn(T, T) -> T, zero: T| #[trigger]
            models(operation, f, zero) ==> reduces(f, zero, data@, workers as nat, result),
        forall|f: spec_fn(T, T) -> T, zero: T| #[trigger]
            models(operation, f, zero) && data@.len() > 0 && monoid(f, inferred_identity(f, zero))
                ==> result == data@.fold_left(inferred_identity(f, zero), f),
{
    if data.is_empty() {
        return T::default();
    }
    if data.len() == 1 {
        let only = data[0];
        proof {
            lemma_models_fold(operation, data@, workers as nat, only);
        }
        return only;
    }
    let initial = get_initial_value(&operation);
    let size = chunk_size(data.len(), workers);
    let result = reduce_chunks(&data, size, initial, &operation);
    proof {
        lemma_models_fold(operation, data@, workers as nat, result);
    }
    result
}

/// Reduces `data` by `operation`, with chunks sized for the logical cores
/// of this machine.
///
/// An empty input gives the default value and a single element gives
/// itself. Any other input is folded chunk by chunk from the inferred seed,
/// and the folds are combined in order. For an associative operation whose
/// neutral element is the inferred seed, the result is the left fold of the
/// whole input.
pub fn parallel_binary_operation<T, F>(data: Vec<T>, operation: F) -> (result: T) where
    T: Copy + Send + Sync + 'static + Default + PartialEq + From<u8>,
    F: Fn(T, T) -> T + Sync + Send,

    requires
        total(operation),
    ensures
        data@.len() == 0 ==> is_default(result),
        data@.len() == 1 ==> result == data@[0],
        forall|f: spec_fn(T, T) -> T, zero: T| #[trigger]
            models(operation, f, zero) ==> exists|workers: nat|
                workers >= 1 && #[trigger] reduces(f, zero, data@, workers, result),
        forall|f: spec_fn(T, T) -> T, zero: T| #[trigger]
            models(operation, f, zero) && data@.len() > 0 && monoid(f, inferred_identity(f, zero))
                ==> result == data@.fold_left(inferred_identity(f, zero), f),
{
    let workers = if data.len() < 2 {
        1
    } else {
        available_workers()
    };
    let ghost items = data@;
    let result = parallel_binary_operation_with_workers(data, operation, workers);
    proof {
        assert forall|f: spec_fn(T, T) -> T, zero: T| #[trigger]
            models(operation, f, zero) implies exists|workers: nat|
            workers >= 1 && #[trigger] reduces(f, zero, items, workers, result) by {
            assert(reduces(f, zero, items, workers as nat, result));
        }
    }
    result
}

/// Carries [`lemma_reduces_is_fold`] over to every description of the
/// operation.
proof fn lemma_models_fold<T: Default + PartialEq + From<u8>, F: Fn(T, T) -> T>(
    operation: F,
    data: Seq<T>,
    workers: nat,
    result: T,
)
    requires
        workers > 0,
        data.len() > 0,
        forall|f: spec_fn(T, T) -> T, zero: T| #[trigger]
            models(operation, f, zero) ==> reduces(f, zero, data, workers, result),
    ensures
        forall|f: spec_fn(T, T) -> T, zero: T| #[trigger]
            models(operation, f, zero) && monoid(f, inferred_identity(f, zero)) ==> result
                == data.fold_left(inferred_identity(f, zero), f),
{
    assert forall|f: spec_fn(T, T) -> T, zero: T| #[trigger]
        models(operation, f, zero) && monoid(f, inferred_identity(f, zero)) implies result
        == data.fold_left(inferred_identity(f, zero), f) by {
        lemma_reduces_is_fold(f, zero, data, workers, result);
    }
}

/// The result guarantee: for an associative operation whose neutral element
/// is the inferred seed, reducing an input that is not empty gives its left
/// fold from that seed, whatever the number of workers and whatever way the
/// folds of the chunks were combined.
pub proof fn lemma_reduces_is_fold<T: PartialEq + From<u8>>(
    f: spec_fn(T, T) -> T,
    zero: T,
    data: Seq<T>,
    workers: nat,
    result: T,
)
    requires
        workers > 0,
        data.len() > 0,
        monoid(f, inferred_identity(f, zero)),
        reduces(f, zero, data, workers, result),
    ensures
        result == data.fold_left(inferred_identity(f, zero), f),
{
    let seed = inferred_identity(f, zero);
    if data.len() == 1 {
        assert(data.drop_last().fold_left(seed, f) == seed);
    } else {
        lemma_chunk_count_le_workers(data.len(), workers);
        let size = ceil_div(data.len(), workers);
        lemma_reduction_is_fold(f, seed, chunk_folds(f, seed, data, size), result);
        lemma_fold_of_chunk_folds(f, seed, data, size);
    }
}

/// Chunking invariance: for an associative operation whose neutral element
/// is the inferred seed, two reductions of one input give one result,
/// whatever number of workers each was made for.
pub proof fn lemma_chunking_invariance<T: PartialEq + From<u8>>(
    f: spec_fn(T, T) -> T,
    zero: T,
    data: Seq<T>,
    workers: nat,
    result: T,
    other_workers: nat,
    other_result: T,
)
    requires
        workers > 0,
        other_workers > 0,
        monoid(f, inferred_identity(f, zero)),
        reduces(f, zero, data, workers, result),
        reduces(f, zero, data, other_workers, other_result),
    ensures
        result == other_result,
{
    if data.len() > 0 {
        lemma_reduces_is_fold(f, zero, data, workers, result);
        lemma_reduces_is_fold(f, zero, data, other_workers, other_result);
    }
}

} // verus!
