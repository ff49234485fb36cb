//! The rank engine, the oblivious router and the two sorters built on them.
use vstd::prelude::*;

use crate::laws::{lemma_sort_direct_multiset, lemma_sort_direct_sorted, lemma_two_pass_rotates};
use crate::model::{
    all_fit, plains, rank_seq, rank_upto, resolved, routed, routed_sum, sorted_direct, sorted_two_pass,
    wrap, zeros_upto,
};
use crate::value::Comparable;

verus! {

/// Computes the rank of every element: position `i` receives, modulo 256, the
/// number of elements smaller than `data[i]`, or equal to it and later.
pub fn sorting_permutation<T: Comparable>(ctx: &T::Context, data: &[T]) -> (out: Vec<T>)
    requires
        all_fit(data@, ctx),
    ensures
        all_fit(out@, ctx),
        out@.len() == data@.len(),
        plains(out@) == rank_seq(plains(data@)),
{
    let ghost d = plains(data@);
    let n = data.len();
    let mut out: Vec<T> = Vec::new();
    let mut k: usize = 0;
    while k < n
        invariant
            k <= n,
            n == data@.len(),
            out@.len() == k,
            all_fit(data@, ctx),
            all_fit(out@, ctx),
            forall|p: int| 0 <= p < k ==> (#[trigger] out@[p]).plain() == 0,
        decreases n - k,
    {
        out.push(T::trivial(ctx, 0));
        k = k + 1;
    }
    let one = T::trivial(ctx, 1);
    let mut i: usize = 0;
    while i < n
        invariant
            i <= n,
            n == data@.len(),
            d == plains(data@),
            one.plain() == 1,
            one.fits(ctx),
            all_fit(data@, ctx),
            all_fit(out@, ctx),
            out@.len() == n,
            forall|p: int|
                0 <= p < n ==> (#[trigger] out@[p]).plain() == if p < i {
                    wrap(rank_upto(d, p, i as int) as int)
                } else {
                    0u8
                },
        decreases n - i,
    {
        let mut j: usize = 0;
        assert(out@[i as int].plain() == wrap(rank_upto(d, i as int, 0) as int));
        while j < i
            invariant
                j <= i < n,
                n == data@.len(),
                d == plains(data@),
                one.plain() == 1,
                one.fits(ctx),
                all_fit(data@, ctx),
                all_fit(out@, ctx),
                out@.len() == n,
                out@[i as int].plain() == wrap(rank_upto(d, i as int, j as int) as int),
                forall|p: int|
                    0 <= p < j ==> (#[trigger] out@[p]).plain() == wrap(
                        rank_upto(d, p, i + 1) as int,
                    ),
                forall|p: int|
                    j <= p < i ==> (#[trigger] out@[p]).plain() == wrap(
                        rank_upto(d, p, i as int) as int,
                    ),
                forall|p: int| i < p < n ==> (#[trigger] out@[p]).plain() == 0,
            decreases i - j,
        {
            let z = data[i].greater(ctx, &data[j]);
            let nz = one.minus(ctx, &z);
            let a = out[i].plus(ctx, &z);
            out.set(i, a);
            let b = out[j].plus(ctx, &nz);
            out.set(j, b);
            j = j + 1;
        }
        i = i + 1;
    }
    assert(plains(out@) =~= rank_seq(d));
    out
}

/// Gathers `data` by the ranks in `permutation`: output position `i` holds the
/// wrapped sum of the elements `j` whose entry equals `i`. An entry outside
/// `0..data.len()` contributes nothing; equal entries add up.
pub fn apply_permutation<T: Comparable>(ctx: &T::Context, data: &[T], permutation: &[T]) -> (out:
    Vec<T>)
    requires
        data@.len() == permutation@.len(),
        all_fit(data@, ctx),
        all_fit(permutation@, ctx),
    ensures
        all_fit(out@, ctx),
        out@.len() == data@.len(),
        plains(out@) == routed(plains(data@), plains(permutation@)),
{
    let ghost d = plains(data@);
    let ghost e = plains(permutation@);
    let n = data.len();
    let mut out: Vec<T> = Vec::new();
    let mut i: usize = 0;
    while i < n
        invariant
            i <= n,
            n == data@.len(),
            n == permutation@.len(),
            d == plains(data@),
            e == plains(permutation@),
            all_fit(data@, ctx),
            all_fit(permutation@, ctx),
            all_fit(out@, ctx),
            out@.len() == i,
            forall|p: int|
                0 <= p < i ==> (#[trigger] out@[p]).plain() == wrap(routed_sum(d, e, p, n as int)),
        decreases n - i,
    {
        let mut acc = T::trivial(ctx, 0);
        if i < 256 {
            let target: u8 = i as u8;
            let mut j: usize = 0;
            while j < n
                invariant
                    j <= n,
                    i < n,
                    i < 256,
                    n == data@.len(),
                    n == permutation@.len(),
                    d == plains(data@),
                    e == plains(permutation@),
                    target == i,
                    all_fit(data@, ctx),
                    all_fit(permutation@, ctx),
                    acc.fits(ctx),
                    acc.plain() == wrap(routed_sum(d, e, i as int, j as int)),
                decreases n - j,
            {
                let jtoi = permutation[j].equals(ctx, target);
                let term = jtoi.times(ctx, &data[j]);
                assert(term.plain() == if e[j as int] as int == i {
                    d[j as int]
                } else {
                    0u8
                });
                acc = acc.plus(ctx, &term);
                j = j + 1;
            }
        } else {
            proof {
                lemma_routed_unnamed(d, e, i as int, n as int);
            }
        }
        out.push(acc);
        i = i + 1;
    }
    assert(plains(out@) =~= routed(d, e));
    out
}

/// No 8-bit entry names a position from 256 on.
proof fn lemma_routed_unnamed(d: Seq<u8>, e: Seq<u8>, i: int, k: int)
    requires
        i >= 256,
        0 <= k <= e.len(),
    ensures
        routed_sum(d, e, i, k) == 0,
    decreases k,
{
    if k > 0 {
        lemma_routed_unnamed(d, e, i, k - 1);
    }
}

/// The direct sorter: each element routed to its own rank. Up to 256
/// elements, the output holds the input's plaintexts in non-decreasing order.
pub fn blind_sort<T: Comparable>(ctx: &T::Context, data: &[T]) -> (out: Vec<T>)
    requires
        all_fit(data@, ctx),
    ensures
        all_fit(out@, ctx),
        plains(out@) == sorted_direct(plains(data@)),
        out@.len() == data@.len(),
        data@.len() <= 256 ==> forall|i: int, j: int|
            0 <= i < j < out@.len() ==> out@[i].plain() <= out@[j].plain(),
        data@.len() <= 256 ==> plains(out@).to_multiset() == plains(data@).to_multiset(),
{
    let permutation = sorting_permutation(ctx, data);
    let out = apply_permutation(ctx, data, permutation.as_slice());
    proof {
        if data@.len() <= 256 {
            lemma_sort_direct_sorted(plains(data@));
            lemma_sort_direct_multiset(plains(data@));
            assert forall|i: int, j: int| 0 <= i < j < out@.len() implies out@[i].plain()
                <= out@[j].plain() by {
                assert(plains(out@)[i] == out@[i].plain());
                assert(plains(out@)[j] == out@[j].plain());
            }
        }
    }
    out
}

/// The two-pass sorter: the values themselves route the data coarsely, a
/// running count of zeros resolves the coarse ranks, and the resolved ranks
/// route the coarse result. Given a permutation of `0..n` with `n <= 256`, the
/// output is `0..n` rotated left by one position.
pub fn blind_sort_2bp<T: Comparable>(ctx: &T::Context, data: &[T]) -> (out: Vec<T>)
    requires
        all_fit(data@, ctx),
    ensures
        all_fit(out@, ctx),
        plains(out@) == sorted_two_pass(plains(data@)),
        ({
            let d = plains(data@);
            let n = d.len() as int;
            1 <= n <= 256 && (forall|j: int| 0 <= j < n ==> d[j] < n) && (forall|j: int, k: int|
                0 <= j < n && 0 <= k < n && j != k ==> d[j] != d[k]) ==> plains(out@) == Seq::new(
                d.len(),
                |i: int| ((i + 1) % n) as u8,
            )
        }),
{
    let ghost d = plains(data@);
    let partially = apply_permutation(ctx, data, data);
    let ghost s = plains(partially@);
    let n = partially.len();
    let mut cnt = T::trivial(ctx, 0);
    let mut permutation: Vec<T> = Vec::new();
    let mut k: usize = 0;
    while k < n
        invariant
            k <= n,
            n == partially@.len(),
            s == plains(partially@),
            all_fit(partially@, ctx),
            all_fit(permutation@, ctx),
            cnt.fits(ctx),
            cnt.plain() == wrap(zeros_upto(s, k as int) as int),
            permutation@.len() == k,
            forall|q: int| 0 <= q < k ==> (#[trigger] permutation@[q]).plain() == resolved(s)[q],
        decreases n - k,
    {
        let z = partially[k].equals(ctx, 0);
        cnt = cnt.plus(ctx, &z);
        permutation.push(partially[k].minus(ctx, &cnt));
        k = k + 1;
    }
    assert(plains(permutation@) =~= resolved(s));
    let out = apply_permutation(ctx, partially.as_slice(), permutation.as_slice());
    proof {
        let n = d.len() as int;
        if 1 <= n <= 256 && (forall|j: int| 0 <= j < n ==> d[j] < n) && (forall|j: int, k: int|
            0 <= j < n && 0 <= k < n && j != k ==> d[j] != d[k]) {
            lemma_two_pass_rotates(d);
        }
    }
    out
}

} // verus!
