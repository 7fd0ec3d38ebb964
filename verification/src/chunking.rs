//! Static chunking: how an input of a given length is split among workers.
//!
//! Every worker gets one contiguous chunk of `ceil(len / workers)` elements,
//! the last chunk taking what is left.

use vstd::prelude::*;
use crate::operation::{lemma_fold_concat, monoid};

verus! {

/// `n / d`, rounded up.
pub open spec fn ceil_div(n: nat, d: nat) -> nat
    recommends
        d > 0,
{
    ((n + d - 1) / (d as int)) as nat
}

/// The `i`-th chunk of `s` when it is cut into pieces of `size` elements.
pub open spec fn chunk<T>(s: Seq<T>, size: nat, i: int) -> Seq<T>
    recommends
        size > 0,
        0 <= i < ceil_div(s.len(), size),
{
    s.subrange(i * size, if (i + 1) * size <= s.len() { (i + 1) * size } else { s.len() as int })
}

/// `s` cut into pieces of `size` elements, in order.
pub open spec fn chunks<T>(s: Seq<T>, size: nat) -> Seq<Seq<T>>
    recommends
        size > 0,
{
    Seq::new(ceil_div(s.len(), size), |i: int| chunk(s, size, i))
}

/// The left fold of every chunk of `s`, each started from `seed`.
pub open spec fn chunk_folds<T>(f: spec_fn(T, T) -> T, seed: T, s: Seq<T>, size: nat) -> Seq<T>
    recommends
        size > 0,
{
    Seq::new(ceil_div(s.len(), size), |i: int| chunk(s, size, i).fold_left(seed, f))
}

/// `ceil_div(n, d)` is the one `c` with `n <= c * d < n + d`.
pub proof fn lemma_ceil_div_bounds(n: nat, d: nat)
    requires
        d > 0,
    ensures
        n <= ceil_div(n, d) * d < n + d,
{
    let x = n + d - 1;
    let c = x / (d as int);
    assert(x == d * c + x % (d as int) && 0 <= x % (d as int) < d) by (nonlinear_arith)
        requires
            d > 0,
            c == x / (d as int),
    ;
    assert(c >= 0) by (nonlinear_arith)
        requires
            d > 0,
            d * c > -1,
    ;
    assert(c * d == d * c) by (nonlinear_arith);
}

/// The converse of [`lemma_ceil_div_bounds`].
pub proof fn lemma_ceil_div_unique(n: nat, d: nat, c: nat)
    requires
        d > 0,
        n <= c * d < n + d,
    ensures
        c == ceil_div(n, d),
{
    lemma_ceil_div_bounds(n, d);
    let k = ceil_div(n, d);
    assert(c == k) by (nonlinear_arith)
        requires
            d > 0,
            n <= c * d < n + d,
            n <= k * d < n + d,
    ;
}

/// Where the `i`-th chunk starts and ends: inside the input, and not empty.
pub proof fn lemma_chunk_bounds(len: nat, size: nat, i: int)
    requires
        size > 0,
        0 <= i < ceil_div(len, size),
    ensures
        0 <= i * size < len,
        i * size < (i + 1) * size,
        (i + 1) * size == i * size + size,
        i + 1 < ceil_div(len, size) ==> (i + 1) * size < len,
        i + 1 == ceil_div(len, size) ==> len <= (i + 1) * size,
{
    lemma_ceil_div_bounds(len, size);
    let c = ceil_div(len, size);
    assert((i + 1) * size == i * size + size) by (nonlinear_arith);
    assert(0 <= i * size) by (nonlinear_arith)
        requires
            0 <= i,
            size > 0,
    ;
    assert((i + 1) * size <= c * size) by (nonlinear_arith)
        requires
            i + 1 <= c,
            size > 0,
    ;
    if i + 1 < c {
        assert((i + 2) * size <= c * size) by (nonlinear_arith)
            requires
                i + 2 <= c,
                size > 0,
        ;
        assert((i + 2) * size == (i + 1) * size + size) by (nonlinear_arith);
    }
}

/// No chunk is empty, none is longer than `size`, and all but the last are
/// exactly `size` long.
pub proof fn lemma_chunk_lengths<T>(s: Seq<T>, size: nat, i: int)
    requires
        size > 0,
        0 <= i < chunks(s, size).len(),
    ensures
        1 <= chunks(s, size)[i].len() <= size,
        i + 1 < chunks(s, size).len() ==> chunks(s, size)[i].len() == size,
        i + 1 == chunks(s, size).len() ==> chunks(s, size)[i].len() == s.len() - i * size,
{
    lemma_chunk_bounds(s.len(), size, i);
}

/// An empty input has no chunk, and any other input has at least one.
pub proof fn lemma_chunk_count_zero<T>(s: Seq<T>, size: nat)
    requires
        size > 0,
    ensures
        chunks(s, size).len() == 0 <==> s.len() == 0,
{
    lemma_ceil_div_bounds(s.len(), size);
    let c = ceil_div(s.len(), size);
    if c == 0 {
        assert(c * size == 0) by (nonlinear_arith)
            requires
                c == 0,
        ;
    } else {
        assert(c * size >= size) by (nonlinear_arith)
            requires
                c >= 1,
                size > 0,
        ;
    }
}

/// With chunks of `ceil(len / workers)` elements there are at most `workers`
/// chunks.
pub proof fn lemma_chunk_count_le_workers(len: nat, workers: nat)
    requires
        len > 0,
        workers > 0,
    ensures
        ceil_div(len, workers) > 0,
        ceil_div(len, ceil_div(len, workers)) <= workers,
{
    lemma_ceil_div_bounds(len, workers);
    let size = ceil_div(len, workers);
    assert(size > 0) by (nonlinear_arith)
        requires
            len > 0,
            len <= size * workers,
    ;
    lemma_ceil_div_bounds(len, size);
    let count = ceil_div(len, size);
    assert(count <= workers) by (nonlinear_arith)
        requires
            size > 0,
            len <= size * workers,
            count * size < len + size,
    ;
}

/// The first `count` chunks, one after the other, are the input up to where
/// the last of them ends.
proof fn lemma_chunks_prefix<T>(s: Seq<T>, size: nat, count: int)
    requires
        size > 0,
        0 <= count <= chunks(s, size).len(),
    ensures
        count < chunks(s, size).len() ==> chunks(s, size).take(count).flatten() == s.take(
            count * size,
        ),
        count == chunks(s, size).len() ==> chunks(s, size).take(count).flatten() == s,
    decreases count,
{
    let all = chunks(s, size);
    if count == 0 {
        lemma_chunk_count_zero(s, size);
    } else {
        let i = count - 1;
        lemma_chunks_prefix(s, size, i);
        lemma_chunk_bounds(s.len(), size, i);
        assert(all.take(count) =~= all.take(i).push(all[i]));
        all.take(i).lemma_flatten_push(all[i]);
    }
}

/// The chunks are disjoint and, put together in order, give back the input.
pub proof fn lemma_chunks_cover<T>(s: Seq<T>, size: nat)
    requires
        size > 0,
    ensures
        chunks(s, size).flatten() == s,
{
    let all = chunks(s, size);
    lemma_chunks_prefix(s, size, all.len() as int);
    assert(all.take(all.len() as int) =~= all);
}

/// The folds of the first `count` chunks, folded in turn, give the fold of
/// the input up to where the last of them ends.
proof fn lemma_chunk_folds_prefix<T>(
    f: spec_fn(T, T) -> T,
    seed: T,
    s: Seq<T>,
    size: nat,
    count: int,
)
    requires
        monoid(f, seed),
        size > 0,
        0 <= count <= chunk_folds(f, seed, s, size).len(),
    ensures
        count < chunk_folds(f, seed, s, size).len() ==> chunk_folds(f, seed, s, size).take(
            count,
        ).fold_left(seed, f) == s.take(count * size).fold_left(seed, f),
        count == chunk_folds(f, seed, s, size).len() ==> chunk_folds(f, seed, s, size).take(
            count,
        ).fold_left(seed, f) == s.fold_left(seed, f),
    decreases count,
{
    let folds = chunk_folds(f, seed, s, size);
    if count == 0 {
        lemma_chunk_count_zero(s, size);
    } else {
        let i = count - 1;
        lemma_chunk_folds_prefix(f, seed, s, size, i);
        lemma_chunk_bounds(s.len(), size, i);
        let done = s.take(i * size);
        let next = chunk(s, size, i);
        assert(folds.take(count).drop_last() =~= folds.take(i));
        assert(folds.take(count).fold_left(seed, f) == f(
            done.fold_left(seed, f),
            next.fold_left(seed, f),
        ));
        lemma_fold_concat(f, seed, done, next);
        if count < folds.len() {
            assert(done + next =~= s.take(count * size));
        } else {
            assert(done + next =~= s);
        }
    }
}

/// For an associative operation seeded with its neutral element, folding the
/// folds of the chunks gives the fold of the whole input, whatever the size
/// of the chunks.
pub proof fn lemma_fold_of_chunk_folds<T>(f: spec_fn(T, T) -> T, seed: T, s: Seq<T>, size: nat)
    requires
        monoid(f, seed),
        size > 0,
    ensures
        chunk_folds(f, seed, s, size).fold_left(seed, f) == s.fold_left(seed, f),
{
    let folds = chunk_folds(f, seed, s, size);
    lemma_chunk_folds_prefix(f, seed, s, size, folds.len() as int);
}

/// The number of elements that each worker's chunk gets: `len / workers`,
/// rounded up.
pub fn chunk_size(len: usize, workers: usize) -> (size: usize)
    requires
        workers >= 1,
    ensures
        size == ceil_div(len as nat, workers as nat),
        len > 0 ==> size >= 1,
{
    let whole: usize = len / workers;
    let rest: usize = len % workers;
    proof {
        assert(len == workers * whole + rest && 0 <= rest < workers) by (nonlinear_arith)
            requires
                workers >= 1,
                whole == len / workers,
                rest == len % workers,
        ;
        if rest == 0 {
            assert(len <= whole * workers < len + workers) by (nonlinear_arith)
                requires
                    len == workers * whole,
                    workers >= 1,
            ;
            lemma_ceil_div_unique(len as nat, workers as nat, whole as nat);
        } else {
            assert(len <= (whole + 1) * workers < len + workers) by (nonlinear_arith)
                requires
                    len == workers * whole + rest,
                    0 < rest < workers,
            ;
            assert(whole + 1 <= len) by (nonlinear_arith)
                requires
                    len == workers * whole + rest,
                    0 < rest < workers,
                    whole >= 0,
            ;
            lemma_ceil_div_unique(len as nat, workers as nat, (whole + 1) as nat);
        }
        if len > 0 {
            lemma_chunk_count_le_workers(len as nat, workers as nat);
        }
    }
    if rest == 0 {
        whole
    } else {
        whole + 1
    }
}

} // verus!
