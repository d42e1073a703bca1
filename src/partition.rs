//! Splitting a catalog into contiguous chunks, one per worker, and putting
//! the per-chunk results back together in catalog order.
use vstd::arithmetic::div_mod::{
    lemma_div_is_ordered, lemma_fundamental_div_mod, lemma_hoist_over_denominator,
    lemma_mod_pos_bound,
};
use vstd::arithmetic::mul::{lemma_mul_inequality, lemma_mul_strict_inequality};
use vstd::prelude::*;

verus! {

/// The number of workers actually used for `m` items when `w` were asked
/// for: a request of zero, or of more workers than items, becomes one worker
/// per item (and at least one).
pub open spec fn effective_workers(m: int, w: int) -> int {
    if w <= 0 || w > m {
        if m <= 0 {
            1
        } else {
            m
        }
    } else {
        w
    }
}

/// `ceil(m / d)` for `m >= 0` and `d > 0`.
pub open spec fn ceil_div(m: int, d: int) -> int {
    (m + d - 1) / d
}

/// The length of every chunk but possibly the last.
pub open spec fn chunk_size(m: int, w: int) -> int {
    ceil_div(m, effective_workers(m, w))
}

/// How many chunks `m` items fall into.
pub open spec fn chunk_count(m: int, w: int) -> int {
    if m <= 0 {
        0
    } else {
        ceil_div(m, chunk_size(m, w))
    }
}

/// The half-open index ranges of the chunks, in catalog order.
pub open spec fn chunk_ranges(m: int, w: int) -> Seq<(int, int)> {
    let c = chunk_size(m, w);
    Seq::new(
        chunk_count(m, w) as nat,
        |j: int| (j * c, if j * c + c < m { j * c + c } else { m }),
    )
}

/// `r` is a sequence of non-empty ranges, each starting where the one
/// before it ended, from `a` up to `b`.
pub open spec fn is_exact_cover(r: Seq<(int, int)>, a: int, b: int) -> bool {
    &&& r.len() == 0 ==> a == b
    &&& r.len() > 0 ==> r[0].0 == a && r.last().1 == b
    &&& forall|j: int| 0 <= j < r.len() ==> r[j].0 < r[j].1
    &&& forall|j: int| 0 <= j < r.len() - 1 ==> r[j].1 == r[j + 1].0
}

/// The pieces of `s` that the ranges `r` select, in order.
pub open spec fn chunks_of<A>(s: Seq<A>, r: Seq<(int, int)>) -> Seq<Seq<A>> {
    r.map_values(|p: (int, int)| s.subrange(p.0, p.1))
}

/// The ranges of a computed partition, as integers.
pub open spec fn range_view(v: Seq<(usize, usize)>) -> Seq<(int, int)> {
    v.map_values(|p: (usize, usize)| (p.0 as int, p.1 as int))
}

/// The contents of a list of vectors.
pub open spec fn contents<T>(v: Seq<Vec<T>>) -> Seq<Seq<T>> {
    v.map_values(|c: Vec<T>| c@)
}

proof fn lemma_ceil_div(m: int, d: int)
    requires
        m >= 0,
        d > 0,
    ensures
        ceil_div(m, d) >= 0,
        ceil_div(m, d) * d >= m,
        ceil_div(m, d) * d < m + d,
{
    let x = m + d - 1;
    lemma_fundamental_div_mod(x, d);
    lemma_mod_pos_bound(x, d);
    assert(d * (x / d) == (x / d) * d) by (nonlinear_arith);
    assert(x / d >= 0) by {
        lemma_div_is_ordered(0, x, d);
    }
}

proof fn lemma_chunk_shape(m: int, w: int)
    requires
        m > 0,
    ensures
        1 <= effective_workers(m, w) <= m,
        w >= 1 ==> effective_workers(m, w) <= w,
        chunk_size(m, w) >= 1,
        chunk_count(m, w) >= 1,
        chunk_count(m, w) <= effective_workers(m, w),
        (chunk_count(m, w) - 1) * chunk_size(m, w) < m,
        chunk_count(m, w) * chunk_size(m, w) >= m,
{
    let e = effective_workers(m, w);
    let c = chunk_size(m, w);
    lemma_ceil_div(m, e);
    if c < 1 {
        assert(c * e <= 0) by (nonlinear_arith)
            requires c < 1, e >= 1, c >= 0;
    }
    lemma_ceil_div(m, c);
    let n = chunk_count(m, w);
    assert((n - 1) * c == n * c - c) by (nonlinear_arith);
    assert(n <= e) by {
        assert(n * c < m + c);
        assert(m + c <= (e + 1) * c) by (nonlinear_arith)
            requires c * e >= m;
        if n > e {
            lemma_mul_inequality(e + 1, n, c);
        }
    }
    assert(n >= 1) by {
        if n < 1 {
            lemma_mul_inequality(n, 0, c);
        }
    }
}

proof fn lemma_chunk_ranges_cover(m: int, w: int)
    requires
        m >= 0,
    ensures
        is_exact_cover(chunk_ranges(m, w), 0, m),
        chunk_ranges(m, w).len() == chunk_count(m, w),
{
    let r = chunk_ranges(m, w);
    if m > 0 {
        lemma_chunk_shape(m, w);
        let c = chunk_size(m, w);
        let n = chunk_count(m, w);
        assert forall|j: int| 0 <= j < r.len() implies r[j].0 < r[j].1 by {
            lemma_mul_inequality(j, n - 1, c);
        }
        assert forall|j: int| 0 <= j < r.len() - 1 implies r[j].1 == r[j + 1].0 by {
            lemma_mul_inequality(j + 1, n - 1, c);
            assert((j + 1) * c == j * c + c) by (nonlinear_arith);
        }
        assert(r[0].0 == 0) by {
            assert(0 * c == 0) by (nonlinear_arith);
        }
        assert((n - 1) * c + c == n * c) by (nonlinear_arith);
    }
}

proof fn lemma_cover_flatten<A>(s: Seq<A>, r: Seq<(int, int)>, a: int, b: int)
    requires
        0 <= a <= b <= s.len(),
        is_exact_cover(r, a, b),
    ensures
        chunks_of(s, r).flatten() == s.subrange(a, b),
    decreases r.len(),
{
    if r.len() == 0 {
        assert(s.subrange(a, b) =~= Seq::<A>::empty());
    } else {
        let rest = r.drop_first();
        let mid = r[0].1;
        if rest.len() > 0 {
            assert(rest[0].0 == mid);
            assert forall|j: int| 0 <= j < rest.len() - 1 implies rest[j].1 == rest[j + 1].0 by {
                assert(r[j + 1].1 == r[j + 2].0);
            }
            assert(rest.last() == r.last());
            assert forall|j: int| 0 <= j < rest.len() - 1 implies rest[j].1 <= b by {
                lemma_cover_bounds(r, a, b, j + 1);
            }
            lemma_cover_bounds(r, a, b, 0);
        }
        assert(is_exact_cover(rest, mid, b));
        lemma_cover_bounds(r, a, b, 0);
        lemma_cover_flatten(s, rest, mid, b);
        assert(chunks_of(s, r).drop_first() =~= chunks_of(s, rest));
        assert(s.subrange(a, mid) + s.subrange(mid, b) =~= s.subrange(a, b));
    }
}

proof fn lemma_cover_bounds(r: Seq<(int, int)>, a: int, b: int, k: int)
    requires
        is_exact_cover(r, a, b),
        0 <= k < r.len(),
    ensures
        a <= r[k].0 < r[k].1 <= b,
    decreases r.len() - k,
{
    lemma_cover_lower(r, a, b, k);
    if k < r.len() - 1 {
        lemma_cover_bounds(r, a, b, k + 1);
    }
}

proof fn lemma_cover_lower(r: Seq<(int, int)>, a: int, b: int, k: int)
    requires
        is_exact_cover(r, a, b),
        0 <= k < r.len(),
    ensures
        a <= r[k].0,
    decreases k,
{
    if k > 0 {
        lemma_cover_lower(r, a, b, k - 1);
    }
}

/// Partition law: for any catalog length `m` and any worker count `w >= 1`,
/// the chunks are non-empty, contiguous and in order, cover the catalog
/// exactly once, and number at most `min(w, m)`; concatenating the pieces of
/// any catalog gives that catalog back unchanged.
pub proof fn partition_is_exact_cover<A>(s: Seq<A>, w: int)
    requires
        w >= 1,
    ensures
        is_exact_cover(chunk_ranges(s.len() as int, w), 0, s.len() as int),
        chunk_ranges(s.len() as int, w).len() <= w,
        chunk_ranges(s.len() as int, w).len() <= s.len(),
        chunks_of(s, chunk_ranges(s.len() as int, w)).flatten() == s,
{
    let m = s.len() as int;
    lemma_chunk_ranges_cover(m, w);
    if m > 0 {
        lemma_chunk_shape(m, w);
    }
    lemma_cover_flatten(s, chunk_ranges(m, w), 0, m);
    assert(s.subrange(0, m) =~= s);
}

/// Ordering law: results produced chunk by chunk and gathered in chunk order
/// come out in catalog order, whatever the worker count; two runs with
/// different worker counts give the same sequence.
pub proof fn gathered_order_is_independent_of_workers<A>(s: Seq<A>, w1: int, w2: int)
    requires
        w1 >= 1,
        w2 >= 1,
    ensures
        chunks_of(s, chunk_ranges(s.len() as int, w1)).flatten() == s,
        chunks_of(s, chunk_ranges(s.len() as int, w1)).flatten() == chunks_of(
            s,
            chunk_ranges(s.len() as int, w2),
        ).flatten(),
{
    partition_is_exact_cover(s, w1);
    partition_is_exact_cover(s, w2);
}

/// The chunk ranges for `len` items and `workers` requested workers.
pub fn partition(len: usize, workers: usize) -> (r: Vec<(usize, usize)>)
    ensures
        range_view(r@) == chunk_ranges(len as int, workers as int),
        is_exact_cover(range_view(r@), 0, len as int),
{
    proof {
        lemma_chunk_ranges_cover(len as int, workers as int);
    }
    let mut out: Vec<(usize, usize)> = Vec::new();
    if len == 0 {
        assert(range_view(out@) =~= chunk_ranges(len as int, workers as int));
        return out;
    }
    let e: usize = if workers == 0 || workers > len {
        len
    } else {
        workers
    };
    let c: usize = (len - 1) / e + 1;
    proof {
        lemma_chunk_shape(len as int, workers as int);
        assert(effective_workers(len as int, workers as int) == e as int);
        lemma_hoist_over_denominator(len as int - 1, 1, e as nat);
        assert(c as int == chunk_size(len as int, workers as int));
    }
    let ghost n = chunk_count(len as int, workers as int);
    let ghost spec_r = chunk_ranges(len as int, workers as int);
    let mut start: usize = 0;
    let mut j: usize = 0;
    while start < len
        invariant
            0 <= j <= n,
            n <= len,
            c as int == chunk_size(len as int, workers as int),
            c >= 1,
            n == chunk_count(len as int, workers as int),
            spec_r == chunk_ranges(len as int, workers as int),
            (n - 1) * c < len,
            n * c >= len,
            start < len ==> start as int == j * c,
            start <= len,
            start == len ==> j == n,
            j < n ==> start < len,
            out@.len() == j,
            forall|k: int| 0 <= k < j ==> (#[trigger] range_view(out@)[k]) == spec_r[k],
        decreases len - start,
    {
        let end: usize = if len - start > c {
            start + c
        } else {
            len
        };
        proof {
            if j >= n {
                lemma_mul_inequality(n, j as int, c as int);
            }
            assert(j < n);
            assert(range_view(out@.push((start, end)))[j as int] == spec_r[j as int]);
            assert forall|k: int| 0 <= k < j implies range_view(out@.push((start, end)))[k]
                == range_view(out@)[k] by {}
            assert((j + 1) * c == j * c + c) by (nonlinear_arith);
            if end == len && j + 1 < n {
                lemma_mul_inequality(j as int + 1, n - 1, c as int);
            }
            if end < len && j + 1 == n {
                assert(n * c == (n - 1) * c + c) by (nonlinear_arith);
            }
        }
        let ghost prev = out@;
        out.push((start, end));
        proof {
            assert forall|k: int| 0 <= k < j + 1 implies (#[trigger] range_view(out@)[k])
                == spec_r[k] by {
                assert(out@ == prev.push((start, end)));
                if k < j {
                    assert(range_view(prev)[k] == spec_r[k]);
                }
            }
        }
        start = end;
        j = j + 1;
    }
    assert(range_view(out@) =~= spec_r);
    out
}

/// All results gathered from per-chunk result lists, in chunk order.
pub fn gather<T>(chunks: Vec<Vec<T>>) -> (r: Vec<T>)
    ensures
        r@ == contents(chunks@).flatten(),
{
    let ghost orig = chunks@;
    let mut rest = chunks;
    let mut rev: Vec<Vec<T>> = Vec::new();
    while rest.len() > 0
        invariant
            rest@ + rev@.reverse() == orig,
        decreases rest.len(),
    {
        let last = rest.pop().unwrap();
        proof {
            assert(rest@.push(last) + rev@.reverse() =~= rest@ + rev@.push(last).reverse());
        }
        rev.push(last);
    }
    assert(rev@.reverse() =~= orig);
    let mut out: Vec<T> = Vec::new();
    while rev.len() > 0
        invariant
            out@ + contents(rev@.reverse()).flatten() == contents(orig).flatten(),
        decreases rev.len(),
    {
        let ghost before = rev@;
        let mut next = rev.pop().unwrap();
        proof {
            assert(before =~= rev@.push(next));
            assert(contents(before.reverse()).drop_first() =~= contents(rev@.reverse()));
            assert(contents(before.reverse()).first() == next@);
            assert(contents(before.reverse()).flatten() == next@ + contents(
                rev@.reverse(),
            ).flatten());
            assert(out@ + next@ + contents(rev@.reverse()).flatten() =~= out@ + (next@
                + contents(rev@.reverse()).flatten()));
        }
        out.append(&mut next);
    }
    assert(contents(rev@.reverse()) =~= Seq::<Seq<T>>::empty());
    assert(out@ + Seq::<T>::empty() =~= out@);
    out
}

} // verus!
