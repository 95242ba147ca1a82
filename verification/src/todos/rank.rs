//! Stable ranks: the place each element takes when a sequence is sorted by
//! key, elements with equal keys keeping their relative order.
//!
//! A key is a pair of integers, compared by its first component and then by
//! its second.  Every order the engine produces is the stable rank of a
//! suitable choice of keys.

use vstd::prelude::*;
use vstd::relations::injective_on;
use vstd::set_lib::{lemma_int_range, lemma_map_size, lemma_subset_equality, set_int_range};

verus! {

/// Element `j` comes before element `i`: its key is smaller, or the keys are
/// equal and `j` stands earlier in the sequence.
pub open spec fn precedes(keys: Seq<(int, int)>, j: int, i: int) -> bool {
    ||| keys[j].0 < keys[i].0
    ||| keys[j].0 == keys[i].0 && keys[j].1 < keys[i].1
    ||| keys[j].0 == keys[i].0 && keys[j].1 == keys[i].1 && j < i
}

/// How many of the first `upto` elements come before element `i`.
pub open spec fn count_preceding(keys: Seq<(int, int)>, i: int, upto: int) -> int
    decreases upto,
{
    if upto <= 0 {
        0
    } else {
        count_preceding(keys, i, upto - 1) + if precedes(keys, upto - 1, i) {
            1int
        } else {
            0int
        }
    }
}

/// The index at which element `i` stands once the sequence is sorted.
pub open spec fn stable_rank(keys: Seq<(int, int)>, i: int) -> int {
    count_preceding(keys, i, keys.len() as int)
}

/// The element whose rank is `r`.
pub open spec fn element_at_rank(keys: Seq<(int, int)>, r: int) -> int {
    choose|i: int| 0 <= i < keys.len() && stable_rank(keys, i) == r
}

/// The keys of an executable key vector as mathematical integers.
pub open spec fn int_keys(keys: Seq<(i64, i64)>) -> Seq<(int, int)> {
    Seq::new(keys.len(), |i: int| (keys[i].0 as int, keys[i].1 as int))
}

proof fn lemma_count_bounds(keys: Seq<(int, int)>, i: int, upto: int)
    requires
        0 <= upto,
    ensures
        0 <= count_preceding(keys, i, upto) <= upto,
        0 <= i < upto ==> count_preceding(keys, i, upto) < upto,
    decreases upto,
{
    if upto > 0 {
        lemma_count_bounds(keys, i, upto - 1);
    }
}

proof fn lemma_count_monotone(keys: Seq<(int, int)>, i: int, j: int, upto: int)
    requires
        0 <= upto,
        0 <= i,
        precedes(keys, i, j),
    ensures
        count_preceding(keys, i, upto) <= count_preceding(keys, j, upto),
        i < upto ==> count_preceding(keys, i, upto) < count_preceding(keys, j, upto),
    decreases upto,
{
    if upto > 0 {
        lemma_count_monotone(keys, i, j, upto - 1);
    }
}

/// A rank is an index of the sequence.
pub proof fn lemma_rank_in_range(keys: Seq<(int, int)>, i: int)
    requires
        0 <= i < keys.len(),
    ensures
        0 <= stable_rank(keys, i) < keys.len(),
{
    lemma_count_bounds(keys, i, keys.len() as int);
}

/// Ranks follow the order of the keys: an element that comes before another
/// has the smaller rank.
pub proof fn lemma_rank_respects_order(keys: Seq<(int, int)>, i: int, j: int)
    requires
        0 <= i < keys.len(),
        0 <= j < keys.len(),
        precedes(keys, i, j),
    ensures
        stable_rank(keys, i) < stable_rank(keys, j),
{
    lemma_count_monotone(keys, i, j, keys.len() as int);
}

/// Two different elements never share a rank.
pub proof fn lemma_rank_injective(keys: Seq<(int, int)>, i: int, j: int)
    requires
        0 <= i < keys.len(),
        0 <= j < keys.len(),
        i != j,
    ensures
        stable_rank(keys, i) != stable_rank(keys, j),
{
    if precedes(keys, i, j) {
        lemma_rank_respects_order(keys, i, j);
    } else {
        assert(precedes(keys, j, i));
        lemma_rank_respects_order(keys, j, i);
    }
}

/// Every index of the sequence is the rank of some element.
pub proof fn lemma_rank_onto(keys: Seq<(int, int)>, r: int)
    requires
        0 <= r < keys.len(),
    ensures
        exists|i: int| 0 <= i < keys.len() && stable_rank(keys, i) == r,
{
    let n = keys.len() as int;
    let indices = set_int_range(0, n);
    let rank_of = |i: int| stable_rank(keys, i);
    let ranks = indices.map(rank_of);
    lemma_int_range(0, n);
    assert(injective_on(rank_of, indices)) by {
        assert forall|a: int, b: int|
            indices.contains(a) && indices.contains(b) && #[trigger] rank_of(a) == #[trigger] rank_of(
                b,
            ) implies a == b by {
            if a != b {
                lemma_rank_injective(keys, a, b);
            }
        }
    }
    lemma_map_size(indices, ranks, rank_of);
    assert(ranks.subset_of(indices)) by {
        assert forall|x: int| ranks.contains(x) implies indices.contains(x) by {
            let i = choose|i: int| indices.contains(i) && x == rank_of(i);
            lemma_rank_in_range(keys, i);
        }
    }
    lemma_subset_equality(ranks, indices);
    assert(ranks.contains(r));
    let i = choose|i: int| indices.contains(i) && r == rank_of(i);
    assert(0 <= i < keys.len() && stable_rank(keys, i) == r);
}

/// The element at rank `r` is an index of the sequence, it has rank `r`, and
/// it is the only element that has.
pub proof fn lemma_element_at_rank(keys: Seq<(int, int)>, r: int)
    requires
        0 <= r < keys.len(),
    ensures
        0 <= element_at_rank(keys, r) < keys.len(),
        stable_rank(keys, element_at_rank(keys, r)) == r,
        forall|i: int|
            0 <= i < keys.len() && stable_rank(keys, i) == r ==> i == element_at_rank(keys, r),
{
    lemma_rank_onto(keys, r);
    let e = element_at_rank(keys, r);
    assert forall|i: int| 0 <= i < keys.len() && stable_rank(keys, i) == r implies i == e by {
        if i != e {
            lemma_rank_injective(keys, i, e);
        }
    }
}

fn key_precedes(keys: &Vec<(i64, i64)>, j: usize, i: usize) -> (before: bool)
    requires
        j < keys.len(),
        i < keys.len(),
    ensures
        before == precedes(int_keys(keys@), j as int, i as int),
{
    let a = keys[j];
    let b = keys[i];
    a.0 < b.0 || (a.0 == b.0 && a.1 < b.1) || (a.0 == b.0 && a.1 == b.1 && j < i)
}

/// Computes the stable rank of element `i` by counting the elements that
/// come before it.
pub fn rank_of(keys: &Vec<(i64, i64)>, i: usize) -> (rank: usize)
    requires
        i < keys.len(),
    ensures
        rank == stable_rank(int_keys(keys@), i as int),
        rank < keys.len(),
{
    let mut count: usize = 0;
    let mut j: usize = 0;
    while j < keys.len()
        invariant
            j <= keys.len(),
            i < keys.len(),
            count == count_preceding(int_keys(keys@), i as int, j as int),
            count <= j,
        decreases keys.len() - j,
    {
        if key_precedes(keys, j, i) {
            count += 1;
        }
        j += 1;
    }
    proof {
        lemma_rank_in_range(int_keys(keys@), i as int);
    }
    count
}

/// Lists the indices of `keys` in sorted order: `order[r]` is the element of
/// rank `r`.
pub fn sorted_arrangement(keys: &Vec<(i64, i64)>) -> (order: Vec<usize>)
    ensures
        order.len() == keys.len(),
        forall|r: int|
            0 <= r < order.len() ==> #[trigger] order[r] == element_at_rank(int_keys(keys@), r),
{
    let n = keys.len();
    let ghost ks = int_keys(keys@);
    let mut order: Vec<usize> = Vec::new();
    let mut k: usize = 0;
    while k < n
        invariant
            k <= n,
            order.len() == k,
        decreases n - k,
    {
        order.push(0);
        k += 1;
    }
    let mut i: usize = 0;
    while i < n
        invariant
            i <= n,
            n == keys.len(),
            ks == int_keys(keys@),
            order.len() == n,
            forall|e: int| 0 <= e < i ==> order[#[trigger] stable_rank(ks, e)] == e,
        decreases n - i,
    {
        let rank = rank_of(keys, i);
        proof {
            assert forall|e: int| 0 <= e < i implies #[trigger] stable_rank(ks, e) != rank by {
                lemma_rank_injective(ks, e, i as int);
            }
            assert forall|e: int| 0 <= e < i implies 0 <= #[trigger] stable_rank(ks, e) < n by {
                lemma_rank_in_range(ks, e);
            }
        }
        order.set(rank, i);
        i += 1;
    }
    proof {
        assert forall|r: int| 0 <= r < order.len() implies #[trigger] order[r] == element_at_rank(
            ks,
            r,
        ) by {
            lemma_element_at_rank(ks, r);
        }
    }
    order
}

} // verus!
