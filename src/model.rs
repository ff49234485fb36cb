//! Mathematical model of the oblivious sorters.
use vstd::prelude::*;

use crate::value::Comparable;

verus! {

/// Every value of `s` belongs to `ctx`.
pub open spec fn all_fit<T: Comparable>(s: Seq<T>, ctx: &T::Context) -> bool {
    forall|k: int| 0 <= k < s.len() ==> (#[trigger] s[k]).fits(ctx)
}

/// The plaintexts of a sequence of values.
pub open spec fn plains<T: Comparable>(s: Seq<T>) -> Seq<u8> {
    s.map_values(|c: T| c.plain())
}

/// The 0/1 indicator of a boolean, in the value domain.
pub open spec fn ind(b: bool) -> u8 {
    if b {
        1
    } else {
        0
    }
}

/// A value of the unbounded integers reduced into the 8-bit domain.
pub open spec fn wrap(x: int) -> u8 {
    (x % 256) as u8
}

/// Element `q` of `s` is placed before element `p` by the rank engine: it is
/// smaller, or equal and later in the sequence.
pub open spec fn before(s: Seq<u8>, q: int, p: int) -> bool {
    (q < p && s[q] < s[p]) || (p < q && s[q] <= s[p])
}

/// How many of the first `k` elements of `s` are placed before element `p`.
pub open spec fn rank_upto(s: Seq<u8>, p: int, k: int) -> nat
    decreases k,
{
    if k <= 0 {
        0
    } else {
        rank_upto(s, p, k - 1) + if before(s, k - 1, p) {
            1nat
        } else {
            0nat
        }
    }
}

/// The rank of element `p`: how many elements of `s` are placed before it.
pub open spec fn rank(s: Seq<u8>, p: int) -> nat {
    rank_upto(s, p, s.len() as int)
}

/// The rank array of `s`, each rank reduced into the value domain.
pub open spec fn rank_seq(s: Seq<u8>) -> Seq<u8> {
    Seq::new(s.len(), |p: int| wrap(rank(s, p) as int))
}

/// The sum of the first `k` elements of `data` whose permutation entry equals
/// output position `i`.
pub open spec fn routed_sum(data: Seq<u8>, perm: Seq<u8>, i: int, k: int) -> int
    decreases k,
{
    if k <= 0 {
        0
    } else {
        routed_sum(data, perm, i, k - 1) + if perm[k - 1] as int == i {
            data[k - 1] as int
        } else {
            0
        }
    }
}

/// `data` gathered by `perm`: output position `i` holds the wrapped sum of the
/// elements `j` with `perm[j] == i`; a position that no entry names holds 0.
pub open spec fn routed(data: Seq<u8>, perm: Seq<u8>) -> Seq<u8> {
    Seq::new(data.len(), |i: int| wrap(routed_sum(data, perm, i, data.len() as int)))
}

/// The direct sorter: `data` gathered by its own rank array.
pub open spec fn sorted_direct(data: Seq<u8>) -> Seq<u8> {
    routed(data, rank_seq(data))
}

/// How many of the first `k` elements of `s` are zero.
pub open spec fn zeros_upto(s: Seq<u8>, k: int) -> nat
    decreases k,
{
    if k <= 0 {
        0
    } else {
        zeros_upto(s, k - 1) + if s[k - 1] == 0 {
            1nat
        } else {
            0nat
        }
    }
}

/// Duplicate resolution: each element less the running count of zeros up to
/// and including it.
pub open spec fn resolved(s: Seq<u8>) -> Seq<u8> {
    Seq::new(s.len(), |k: int| wrap(s[k] - zeros_upto(s, k + 1)))
}

/// The two-pass sorter: the values route themselves coarsely, then the
/// resolved ranks route the coarse result.
pub open spec fn sorted_two_pass(data: Seq<u8>) -> Seq<u8> {
    let partial = routed(data, data);
    routed(partial, resolved(partial))
}

} // verus!
