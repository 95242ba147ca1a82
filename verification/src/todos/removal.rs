//! Removing a group of items.  The items that stay are not touched: each
//! keeps its position, so the positions may show gaps afterwards.

use vstd::prelude::*;
use crate::todos::model::{distinct_ids, distinct_positions, TodoView};

verus! {

/// The unmatched items among the first `upto`, in their order.
pub open spec fn survivors_upto(items: Seq<TodoView>, matched: Seq<bool>, upto: int) -> Seq<
    TodoView,
>
    decreases upto,
{
    if upto <= 0 {
        Seq::empty()
    } else {
        let rest = survivors_upto(items, matched, upto - 1);
        if matched[upto - 1] {
            rest
        } else {
            rest.push(items[upto - 1])
        }
    }
}

/// The items that stay when the matched ones are removed.
pub open spec fn survivors(items: Seq<TodoView>, matched: Seq<bool>) -> Seq<TodoView> {
    survivors_upto(items, matched, items.len() as int)
}

/// How many of the first `upto` items are matched.
pub open spec fn matched_upto(matched: Seq<bool>, upto: int) -> int
    decreases upto,
{
    if upto <= 0 {
        0
    } else {
        matched_upto(matched, upto - 1) + if matched[upto - 1] {
            1int
        } else {
            0int
        }
    }
}

/// How many items a removal takes away.
pub open spec fn removed_count(items: Seq<TodoView>, matched: Seq<bool>) -> int {
    matched_upto(matched, items.len() as int)
}

proof fn lemma_survivor_origin(items: Seq<TodoView>, matched: Seq<bool>, upto: int, k: int) -> (i:
    int)
    requires
        0 <= k < survivors_upto(items, matched, upto).len(),
    ensures
        0 <= i < upto,
        !matched[i],
        survivors_upto(items, matched, upto)[k] == items[i],
    decreases upto,
{
    let rest = survivors_upto(items, matched, upto - 1);
    if k < rest.len() {
        lemma_survivor_origin(items, matched, upto - 1, k)
    } else {
        upto - 1
    }
}

proof fn lemma_unmatched_place(items: Seq<TodoView>, matched: Seq<bool>, upto: int, i: int) -> (k:
    int)
    requires
        0 <= i < upto,
        !matched[i],
    ensures
        0 <= k < survivors_upto(items, matched, upto).len(),
        survivors_upto(items, matched, upto)[k] == items[i],
    decreases upto,
{
    let rest = survivors_upto(items, matched, upto - 1);
    if i < upto - 1 {
        lemma_unmatched_place(items, matched, upto - 1, i)
    } else {
        rest.len() as int
    }
}

proof fn lemma_survivors_count(items: Seq<TodoView>, matched: Seq<bool>, upto: int)
    requires
        0 <= upto,
    ensures
        survivors_upto(items, matched, upto).len() + matched_upto(matched, upto) == upto,
        0 <= matched_upto(matched, upto) <= upto,
    decreases upto,
{
    if upto > 0 {
        lemma_survivors_count(items, matched, upto - 1);
    }
}

proof fn lemma_survivors_distinct(items: Seq<TodoView>, matched: Seq<bool>, upto: int)
    requires
        0 <= upto <= items.len(),
    ensures
        distinct_ids(items) ==> distinct_ids(survivors_upto(items, matched, upto)),
        distinct_positions(items) ==> distinct_positions(survivors_upto(items, matched, upto)),
    decreases upto,
{
    if upto > 0 {
        let rest = survivors_upto(items, matched, upto - 1);
        lemma_survivors_distinct(items, matched, upto - 1);
        assert forall|k: int| 0 <= k < rest.len() implies (distinct_ids(items) ==> rest[k].id
            != items[upto - 1].id) && (distinct_positions(items) ==> rest[k].position
            != items[upto - 1].position) by {
            let i = lemma_survivor_origin(items, matched, upto - 1, k);
        }
    }
}

/// A removal does not renumber: every item that stays is an unmatched item
/// of before, unchanged in every field, and every unmatched item of before
/// stays.
pub proof fn lemma_survivors_untouched(items: Seq<TodoView>, matched: Seq<bool>)
    requires
        matched.len() == items.len(),
    ensures
        forall|k: int|
            #![trigger survivors(items, matched)[k]]
            0 <= k < survivors(items, matched).len() ==> exists|i: int|
                #![trigger items[i]]
                0 <= i < items.len() && !matched[i] && survivors(items, matched)[k] == items[i],
        forall|i: int|
            #![trigger items[i]]
            0 <= i < items.len() && !matched[i] ==> exists|k: int|
                #![trigger survivors(items, matched)[k]]
                0 <= k < survivors(items, matched).len() && survivors(items, matched)[k]
                    == items[i],
{
    let n = items.len() as int;
    let stay = survivors(items, matched);
    assert forall|k: int| #![trigger stay[k]] 0 <= k < stay.len() implies exists|i: int|
        #![trigger items[i]]
        0 <= i < items.len() && !matched[i] && stay[k] == items[i] by {
        let i = lemma_survivor_origin(items, matched, n, k);
        assert(0 <= i < items.len() && !matched[i] && stay[k] == items[i]);
    }
    assert forall|i: int| #![trigger items[i]] 0 <= i < items.len() && !matched[i] implies exists|
        k: int,
    |
        #![trigger stay[k]]
        0 <= k < stay.len() && stay[k] == items[i] by {
        let k = lemma_unmatched_place(items, matched, n, i);
        assert(0 <= k < stay.len() && stay[k] == items[i]);
    }
}

/// Two sequences that agree on every unmatched item have the same
/// survivors.
pub proof fn lemma_survivors_agree(a: Seq<TodoView>, b: Seq<TodoView>, matched: Seq<bool>, upto: int)
    requires
        0 <= upto <= a.len(),
        a.len() == b.len(),
        forall|i: int| 0 <= i < a.len() && !matched[i] ==> a[i] == b[i],
    ensures
        survivors_upto(a, matched, upto) == survivors_upto(b, matched, upto),
    decreases upto,
{
    if upto > 0 {
        lemma_survivors_agree(a, b, matched, upto - 1);
    }
}

/// A removal keeps ids and positions unique, and the items that stay and
/// the items taken away add up to the items of before.
pub proof fn lemma_survivors_stay_distinct(items: Seq<TodoView>, matched: Seq<bool>)
    ensures
        distinct_ids(items) ==> distinct_ids(survivors(items, matched)),
        distinct_positions(items) ==> distinct_positions(survivors(items, matched)),
        survivors(items, matched).len() + removed_count(items, matched) == items.len(),
        0 <= removed_count(items, matched) <= items.len(),
{
    lemma_survivors_distinct(items, matched, items.len() as int);
    lemma_survivors_count(items, matched, items.len() as int);
}

} // verus!
