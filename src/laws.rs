//! Properties of the oblivious sorters, stated over the model.
use vstd::prelude::*;
use vstd::arithmetic::div_mod::lemma_small_mod;
use vstd::set_lib::{lemma_int_range, lemma_map_size, lemma_subset_equality, set_int_range};

use crate::model::{
    before, rank, rank_seq, rank_upto, resolved, routed, routed_sum, sorted_direct, sorted_two_pass,
    wrap, zeros_upto,
};

verus! {

/// At most `k` of the first `k` elements precede `p`, and `p` is not among them.
proof fn lemma_rank_upto_bound(s: Seq<u8>, p: int, k: int)
    requires
        0 <= k <= s.len(),
        0 <= p < s.len(),
    ensures
        rank_upto(s, p, k) <= k,
        p < k ==> rank_upto(s, p, k) < k,
    decreases k,
{
    if k > 0 {
        lemma_rank_upto_bound(s, p, k - 1);
    }
}

/// An element placed before `p` has a smaller rank than `p`.
proof fn lemma_rank_monotone(s: Seq<u8>, q: int, p: int, k: int)
    requires
        0 <= q < s.len(),
        0 <= p < s.len(),
        0 <= k <= s.len(),
        before(s, q, p),
    ensures
        rank_upto(s, q, k) <= rank_upto(s, p, k),
        q < k ==> rank_upto(s, q, k) < rank_upto(s, p, k),
    decreases k,
{
    if k > 0 {
        lemma_rank_monotone(s, q, p, k - 1);
    }
}

/// Distinct elements have distinct ranks, each below the length.
proof fn lemma_rank_injective(s: Seq<u8>)
    ensures
        forall|p: int| 0 <= p < s.len() ==> rank(s, p) < s.len(),
        forall|p: int, q: int|
            0 <= p < s.len() && 0 <= q < s.len() && p != q ==> rank(s, p) != rank(s, q),
{
    assert forall|p: int| 0 <= p < s.len() implies rank(s, p) < s.len() by {
        lemma_rank_upto_bound(s, p, s.len() as int);
    }
    assert forall|p: int, q: int|
        0 <= p < s.len() && 0 <= q < s.len() && p != q implies rank(s, p) != rank(s, q) by {
        if before(s, q, p) {
            lemma_rank_monotone(s, q, p, s.len() as int);
        } else {
            lemma_rank_monotone(s, p, q, s.len() as int);
        }
    }
}

/// An injective map from `0..n` into `0..n` reaches every value of `0..n`.
proof fn lemma_injective_onto(n: int, f: spec_fn(int) -> int, i: int)
    requires
        0 <= i < n,
        forall|p: int| 0 <= p < n ==> 0 <= #[trigger] f(p) < n,
        forall|p: int, q: int| 0 <= p < n && 0 <= q < n && p != q ==> #[trigger] f(p) != #[trigger] f(q),
    ensures
        exists|p: int| 0 <= p < n && #[trigger] f(p) == i,
{
    let dom = set_int_range(0, n);
    lemma_int_range(0, n);
    let img = dom.map(f);
    lemma_map_size(dom, img, f);
    assert(img.subset_of(dom));
    lemma_subset_equality(img, dom);
    assert(dom.contains(i));
    assert(img.contains(i));
}

/// Every position below the length is the rank of some element.
proof fn lemma_rank_surjective(s: Seq<u8>, i: int)
    requires
        0 <= i < s.len(),
    ensures
        exists|p: int| 0 <= p < s.len() && rank(s, p) == i,
{
    lemma_rank_injective(s);
    lemma_injective_onto(s.len() as int, |p: int| rank(s, p) as int, i);
}

/// Where exactly one entry `j0` of `perm` names position `i`, the routed sum
/// at `i` is the element `j0` once it is reached.
proof fn lemma_routed_single(data: Seq<u8>, perm: Seq<u8>, i: int, j0: int, k: int)
    requires
        data.len() == perm.len(),
        0 <= j0 < perm.len(),
        0 <= k <= perm.len(),
        perm[j0] as int == i,
        forall|j: int| 0 <= j < perm.len() && j != j0 ==> perm[j] as int != i,
    ensures
        routed_sum(data, perm, i, k) == if j0 < k {
            data[j0] as int
        } else {
            0
        },
    decreases k,
{
    if k > 0 {
        lemma_routed_single(data, perm, i, j0, k - 1);
    }
}

/// For sequences of at most 256 elements, the rank array is a permutation of
/// `0..n`: every rank is below `n`, no two elements share a rank, and every
/// position is the rank of some element.
pub proof fn lemma_rank_is_permutation(s: Seq<u8>)
    requires
        s.len() <= 256,
    ensures
        rank_seq(s).len() == s.len(),
        forall|p: int| 0 <= p < s.len() ==> rank_seq(s)[p] < s.len(),
        forall|p: int, q: int|
            0 <= p < s.len() && 0 <= q < s.len() && p != q ==> rank_seq(s)[p] != rank_seq(s)[q],
        forall|v: u8| v < s.len() ==> rank_seq(s).contains(v),
{
    lemma_rank_injective(s);
    assert forall|v: u8| v < s.len() implies rank_seq(s).contains(v) by {
        lemma_rank_surjective(s, v as int);
        let p = choose|p: int| 0 <= p < s.len() && rank(s, p) == v;
        assert(rank_seq(s)[p] == v);
    }
}

/// In a sequence of at most 256 elements, element `p` lands at its rank.
proof fn lemma_direct_at(s: Seq<u8>, p: int)
    requires
        s.len() <= 256,
        0 <= p < s.len(),
    ensures
        rank(s, p) < s.len(),
        sorted_direct(s)[rank(s, p) as int] == s[p],
{
    let n = s.len() as int;
    let perm = rank_seq(s);
    let i = rank(s, p) as int;
    lemma_rank_injective(s);
    assert forall|j: int| 0 <= j < n && j != p implies perm[j] as int != i by {
        assert(rank(s, j) != rank(s, p));
    }
    lemma_routed_single(s, perm, i, p, n);
}

/// If the first `m` elements all precede `k`, the rank of `k` is at least `m`.
proof fn lemma_rank_at_least(s: Seq<u8>, k: int, m: int, t: int)
    requires
        0 <= m <= t <= s.len(),
        forall|r: int| 0 <= r < m ==> before(s, r, k),
    ensures
        rank_upto(s, k, t) >= m,
    decreases t,
{
    if t > m {
        lemma_rank_at_least(s, k, m, t - 1);
    } else if t > 0 {
        lemma_rank_at_least(s, k, t - 1, t - 1);
    }
}

/// If no element from `m` on precedes `k`, and `k` lies below `m`, the rank of
/// `k` is below `m`.
proof fn lemma_rank_below(s: Seq<u8>, k: int, m: int, t: int)
    requires
        0 <= k < m <= t <= s.len(),
        forall|r: int| m <= r < s.len() ==> !before(s, r, k),
    ensures
        rank_upto(s, k, t) < m,
    decreases t,
{
    if t > m {
        lemma_rank_below(s, k, m, t - 1);
    } else {
        lemma_rank_upto_bound(s, k, m);
    }
}

/// For sequences of at most 256 elements, the direct sorter puts each element
/// at its rank, so that its output is a permutation of the input, and the
/// output is non-decreasing.
pub proof fn lemma_sort_direct_sorted(s: Seq<u8>)
    requires
        s.len() <= 256,
    ensures
        sorted_direct(s).len() == s.len(),
        forall|p: int| 0 <= p < s.len() ==> sorted_direct(s)[rank_seq(s)[p] as int] == s[p],
        forall|i: int, j: int|
            0 <= i < j < s.len() ==> sorted_direct(s)[i] <= sorted_direct(s)[j],
{
    let n = s.len() as int;
    let out = sorted_direct(s);
    lemma_rank_injective(s);
    assert forall|p: int| 0 <= p < n implies out[rank_seq(s)[p] as int] == s[p] by {
        lemma_direct_at(s, p);
    }
    assert forall|i: int, j: int| 0 <= i < j < n implies out[i] <= out[j] by {
        lemma_rank_surjective(s, i);
        lemma_rank_surjective(s, j);
        let p = choose|p: int| 0 <= p < n && rank(s, p) == i;
        let q = choose|q: int| 0 <= q < n && rank(s, q) == j;
        lemma_direct_at(s, p);
        lemma_direct_at(s, q);
        if before(s, q, p) {
            lemma_rank_monotone(s, q, p, n);
        }
    }
}

/// A sequence that another one's elements fill through an injective map of
/// positions holds the same elements.
proof fn lemma_placed_multiset(a: Seq<u8>, b: Seq<u8>, f: spec_fn(int) -> int)
    requires
        a.len() == b.len(),
        forall|p: int| 0 <= p < a.len() ==> 0 <= #[trigger] f(p) < a.len(),
        forall|p: int, q: int|
            0 <= p < a.len() && 0 <= q < a.len() && p != q ==> #[trigger] f(p) != #[trigger] f(q),
        forall|p: int| 0 <= p < a.len() ==> b[#[trigger] f(p)] == a[p],
    ensures
        a.to_multiset() =~= b.to_multiset(),
    decreases a.len(),
{
    broadcast use vstd::seq_lib::group_to_multiset_ensures;

    if a.len() > 0 {
        let n = a.len() as int;
        let q = f(n - 1);
        let a1 = a.drop_last();
        let b1 = b.remove(q);
        let g = |p: int| if f(p) < q { f(p) } else { f(p) - 1 };
        assert forall|p: int| 0 <= p < a1.len() implies b1[#[trigger] g(p)] == a1[p] by {
            assert(f(p) != q);
        }
        assert forall|p: int| 0 <= p < a1.len() implies 0 <= #[trigger] g(p) < a1.len() by {
            assert(f(p) != q);
        }
        assert forall|p: int, r: int|
            0 <= p < a1.len() && 0 <= r < a1.len() && p != r implies #[trigger] g(p)
            != #[trigger] g(r) by {
            assert(f(p) != q);
            assert(f(r) != q);
            assert(f(p) != f(r));
        }
        lemma_placed_multiset(a1, b1, g);
        assert(a =~= a1.push(a[n - 1]));
        assert(b.to_multiset().count(b[q]) > 0);
        assert(b.to_multiset() =~= b1.to_multiset().insert(b[q]));
    }
}

/// For sequences of at most 256 elements, the direct sorter's output holds
/// the same elements as its input.
pub proof fn lemma_sort_direct_multiset(s: Seq<u8>)
    requires
        s.len() <= 256,
    ensures
        sorted_direct(s).to_multiset() == s.to_multiset(),
{
    lemma_sort_direct_sorted(s);
    lemma_rank_injective(s);
    let f = |p: int| rank_seq(s)[p] as int;
    assert forall|p: int, q: int| 0 <= p < s.len() && 0 <= q < s.len() && p != q implies #[trigger] f(
        p,
    ) != #[trigger] f(q) by {
        assert(rank(s, p) != rank(s, q));
    }
    lemma_placed_multiset(s, sorted_direct(s), f);
}

/// For sequences of at most 256 elements, sorting a sorted output again
/// changes nothing.
pub proof fn lemma_sort_direct_idempotent(s: Seq<u8>)
    requires
        s.len() <= 256,
    ensures
        sorted_direct(sorted_direct(s)) == sorted_direct(s),
{
    let y = sorted_direct(s);
    let n = y.len() as int;
    lemma_sort_direct_sorted(s);
    let z = sorted_direct(y);
    assert forall|i: int| 0 <= i < n implies z[i] == y[i] by {
        lemma_rank_surjective(y, i);
        let k = choose|k: int| 0 <= k < n && rank(y, k) == i;
        lemma_direct_at(y, k);
        if y[i] < y[k] {
            assert forall|r: int| 0 <= r < i + 1 implies before(y, r, k) by {
                if r < i {
                    assert(y[r] <= y[i]);
                }
            }
            lemma_rank_at_least(y, k, i + 1, n);
        } else if y[i] > y[k] {
            assert forall|r: int| i <= r < n implies !before(y, r, k) by {
                if r > i {
                    assert(y[i] <= y[r]);
                }
            }
            lemma_rank_below(y, k, i, n);
        }
    }
    assert(z =~= y);
}

/// Routing by the identity permutation leaves data of at most 256 elements
/// unchanged.
pub proof fn lemma_identity_route(data: Seq<u8>)
    requires
        data.len() <= 256,
    ensures
        routed(data, Seq::new(data.len(), |j: int| j as u8)) == data,
{
    let n = data.len() as int;
    let perm = Seq::new(data.len(), |j: int| j as u8);
    assert forall|i: int| 0 <= i < n implies routed(data, perm)[i] == data[i] by {
        lemma_routed_single(data, perm, i, i, n);
    }
    assert(routed(data, perm) =~= data);
}

/// The routed sum at `i` does not read an element whose entry misses `i`.
proof fn lemma_routed_sum_skips(data: Seq<u8>, perm: Seq<u8>, i: int, k: int, v: u8, t: int)
    requires
        data.len() == perm.len(),
        0 <= k < perm.len(),
        0 <= t <= perm.len(),
        perm[k] as int != i,
    ensures
        routed_sum(data, perm, i, t) == routed_sum(data.update(k, v), perm, i, t),
    decreases t,
{
    if t > 0 {
        lemma_routed_sum_skips(data, perm, i, k, v, t - 1);
    }
}

/// An entry of the permutation outside `0..n` contributes nothing: the element
/// at its position is dropped from the output, which is the same whatever that
/// element holds.
pub proof fn lemma_out_of_range_dropped(data: Seq<u8>, perm: Seq<u8>, k: int, v: u8)
    requires
        data.len() == perm.len(),
        0 <= k < perm.len(),
        perm[k] >= perm.len(),
    ensures
        routed(data.update(k, v), perm) == routed(data, perm),
{
    let n = data.len() as int;
    assert forall|i: int| 0 <= i < n implies routed(data.update(k, v), perm)[i] == routed(
        data,
        perm,
    )[i] by {
        lemma_routed_sum_skips(data, perm, i, k, v, n);
    }
    assert(routed(data.update(k, v), perm) =~= routed(data, perm));
}

/// Where no entry of `perm` names position `i`, the routed sum at `i` is zero.
proof fn lemma_routed_none(data: Seq<u8>, perm: Seq<u8>, i: int, k: int)
    requires
        data.len() == perm.len(),
        0 <= k <= perm.len(),
        forall|j: int| 0 <= j < perm.len() ==> perm[j] as int != i,
    ensures
        routed_sum(data, perm, i, k) == 0,
    decreases k,
{
    if k > 0 {
        lemma_routed_none(data, perm, i, k - 1);
    }
}

/// In a sequence that starts with its only zero, every prefix past the first
/// element counts one zero.
proof fn lemma_single_zero(s: Seq<u8>, t: int)
    requires
        1 <= t <= s.len(),
        s[0] == 0,
        forall|j: int| 1 <= j < s.len() ==> s[j] != 0,
    ensures
        zeros_upto(s, t) == 1,
    decreases t,
{
    if t > 1 {
        lemma_single_zero(s, t - 1);
    } else {
        assert(zeros_upto(s, 0) == 0);
    }
}

/// The two-pass sorter, given a permutation of `0..n` with `1 <= n <= 256`,
/// returns `0..n` rotated left by one position.
pub proof fn lemma_two_pass_rotates(data: Seq<u8>)
    requires
        1 <= data.len() <= 256,
        forall|j: int| 0 <= j < data.len() ==> data[j] < data.len(),
        forall|j: int, k: int|
            0 <= j < data.len() && 0 <= k < data.len() && j != k ==> data[j] != data[k],
    ensures
        sorted_two_pass(data) == Seq::new(data.len(), |i: int| ((i + 1) % (data.len() as int)) as u8),
{
    let n = data.len() as int;
    let partial = routed(data, data);
    let ascending = Seq::new(data.len(), |i: int| i as u8);
    assert forall|i: int| 0 <= i < n implies partial[i] == ascending[i] by {
        lemma_injective_onto(n, |j: int| data[j] as int, i);
        let j = choose|j: int| 0 <= j < n && data[j] == i;
        lemma_routed_single(data, data, i, j, n);
    }
    assert(partial =~= ascending);
    let perm = resolved(partial);
    assert forall|k: int| 0 <= k < n implies perm[k] == if k == 0 {
        255u8
    } else {
        (k - 1) as u8
    } by {
        lemma_single_zero(partial, k + 1);
    }
    let out = sorted_two_pass(data);
    assert forall|i: int| 0 <= i < n implies out[i] == ((i + 1) % n) as u8 by {
        if i < n - 1 {
            lemma_routed_single(partial, perm, i, i + 1, n);
            assert(partial[i + 1] == (i + 1) as u8);
            lemma_small_mod((i + 1) as nat, n as nat);
        } else if n == 256 {
            lemma_routed_single(partial, perm, i, 0, n);
        } else {
            lemma_routed_none(partial, perm, i, n);
        }
        if i == n - 1 {
            assert((i + 1) % n == 0) by (nonlinear_arith)
                requires
                    i + 1 == n,
                    n > 0,
            ;
        }
    }
    assert(out =~= Seq::new(data.len(), |i: int| ((i + 1) % n) as u8));
}

} // verus!
