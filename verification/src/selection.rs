//! The list order of the history and the top-k selection that lists and
//! pruning share: rows come newest first by `(last_used_at, id)`; a
//! selection takes, step by step, the newest row that satisfies a predicate
//! and lies after a bound, the bound then moving to that row.

use vstd::prelude::*;

use crate::clipboard_store::RowView;

verus! {

/// `a` comes before `b` in the list order (`last_used_at DESC, id DESC`).
pub open spec fn newer(a: RowView, b: RowView) -> bool {
    a.last_used_at > b.last_used_at || (a.last_used_at == b.last_used_at && a.id > b.id)
}

/// `r` lies strictly after the `(last_used_at, id)` bound in the list order.
pub open spec fn below(r: RowView, bound: Option<(i64, i64)>) -> bool {
    match bound {
        None => true,
        Some((t, id)) => r.last_used_at < t || (r.last_used_at == t && r.id < id),
    }
}

/// The sort key of a row, as a bound.
pub open spec fn key_of(r: RowView) -> Option<(i64, i64)> {
    Some((r.last_used_at, r.id))
}

/// The index of the first row in list order among those that satisfy `pred`
/// and lie after `bound`.
pub open spec fn best(rows: Seq<RowView>, pred: spec_fn(RowView) -> bool, bound: Option<(i64, i64)>) -> Option<int>
    decreases rows.len(),
{
    if rows.len() == 0 {
        None
    } else {
        let i = rows.len() - 1;
        let prev = best(rows.drop_last(), pred, bound);
        if pred(rows[i]) && below(rows[i], bound) && (prev is None || newer(rows[i], rows[prev->0])) {
            Some(i)
        } else {
            prev
        }
    }
}

/// The first `k` rows in list order among those that satisfy `pred` and lie
/// after `bound` (fewer when there are fewer).
pub open spec fn top(rows: Seq<RowView>, pred: spec_fn(RowView) -> bool, bound: Option<(i64, i64)>, k: nat) -> Seq<RowView>
    decreases k,
{
    if k == 0 {
        seq![]
    } else {
        match best(rows, pred, bound) {
            None => seq![],
            Some(i) => seq![rows[i]] + top(rows, pred, key_of(rows[i]), (k - 1) as nat),
        }
    }
}

/// The bound after `k` steps of the selection.
pub open spec fn bound_after(rows: Seq<RowView>, pred: spec_fn(RowView) -> bool, bound: Option<(i64, i64)>, k: nat) -> Option<(i64, i64)>
    decreases k,
{
    if k == 0 {
        bound
    } else {
        match best(rows, pred, bound) {
            None => bound,
            Some(i) => bound_after(rows, pred, key_of(rows[i]), (k - 1) as nat),
        }
    }
}

/// One step of the selection from `bound`.
pub open spec fn step_seq(rows: Seq<RowView>, pred: spec_fn(RowView) -> bool, bound: Option<(i64, i64)>) -> Seq<RowView> {
    match best(rows, pred, bound) {
        None => seq![],
        Some(i) => seq![rows[i]],
    }
}

/// The bound after one step of the selection from `bound`.
pub open spec fn next_bound(rows: Seq<RowView>, pred: spec_fn(RowView) -> bool, bound: Option<(i64, i64)>) -> Option<(i64, i64)> {
    match best(rows, pred, bound) {
        None => bound,
        Some(i) => key_of(rows[i]),
    }
}

/// Selecting one more row appends the next step's row (if any) and moves
/// the bound to it.
pub proof fn lemma_top_step(rows: Seq<RowView>, pred: spec_fn(RowView) -> bool, bound: Option<(i64, i64)>, k: nat)
    ensures
        top(rows, pred, bound, k + 1) == top(rows, pred, bound, k) + step_seq(rows, pred, bound_after(rows, pred, bound, k)),
        bound_after(rows, pred, bound, k + 1) == next_bound(rows, pred, bound_after(rows, pred, bound, k)),
    decreases k,
{
    if k == 0 {
        match best(rows, pred, bound) {
            None => {
                assert(top(rows, pred, bound, 1) =~= seq![]);
            },
            Some(i) => {
                assert(top(rows, pred, key_of(rows[i]), 0) =~= seq![]);
                assert(top(rows, pred, bound, 1) =~= seq![rows[i]]);
                assert(bound_after(rows, pred, key_of(rows[i]), 0) == key_of(rows[i]));
            },
        }
        assert(top(rows, pred, bound, 0) =~= seq![]);
        assert(top(rows, pred, bound, 1) =~= top(rows, pred, bound, 0) + step_seq(rows, pred, bound));
    } else {
        match best(rows, pred, bound) {
            None => {
                assert(top(rows, pred, bound, k + 1) =~= seq![]);
                assert(top(rows, pred, bound, k) =~= seq![]);
                assert(top(rows, pred, bound, k + 1) =~= top(rows, pred, bound, k) + step_seq(rows, pred, bound_after(rows, pred, bound, k)));
            },
            Some(i) => {
                let kb = key_of(rows[i]);
                lemma_top_step(rows, pred, kb, (k - 1) as nat);
                assert(((k + 1) - 1) as nat == k);
                assert(top(rows, pred, bound, k + 1) == seq![rows[i]] + top(rows, pred, kb, k));
                assert(top(rows, pred, bound, k) == seq![rows[i]] + top(rows, pred, kb, (k - 1) as nat));
                assert(bound_after(rows, pred, bound, k) == bound_after(rows, pred, kb, (k - 1) as nat));
                assert(bound_after(rows, pred, bound, k + 1) == bound_after(rows, pred, kb, k));
                assert(top(rows, pred, bound, k + 1) =~= top(rows, pred, bound, k) + step_seq(rows, pred, bound_after(rows, pred, bound, k)));
            },
        }
    }
}

/// `r` satisfies `pred` and lies after `bound`.
pub open spec fn eligible(r: RowView, pred: spec_fn(RowView) -> bool, bound: Option<(i64, i64)>) -> bool {
    pred(r) && below(r, bound)
}

/// The number of rows that satisfy `pred` and lie after `bound`.
pub open spec fn count_eligible(rows: Seq<RowView>, pred: spec_fn(RowView) -> bool, bound: Option<(i64, i64)>) -> nat
    decreases rows.len(),
{
    if rows.len() == 0 {
        0
    } else {
        count_eligible(rows.drop_last(), pred, bound) + if eligible(rows.last(), pred, bound) {
            1nat
        } else {
            0nat
        }
    }
}

/// No two rows share an id.
pub open spec fn distinct_ids(rows: Seq<RowView>) -> bool {
    forall|i: int, j: int| 0 <= i < rows.len() && 0 <= j < rows.len() && i != j ==> rows[i].id != rows[j].id
}

/// The selection step picks the newest eligible row, and finds none only
/// when no row is eligible.
pub proof fn lemma_best(rows: Seq<RowView>, pred: spec_fn(RowView) -> bool, bound: Option<(i64, i64)>)
    requires
        distinct_ids(rows),
    ensures
        match best(rows, pred, bound) {
            Some(i) => {
                &&& 0 <= i < rows.len()
                &&& eligible(rows[i], pred, bound)
                &&& forall|j: int| 0 <= j < rows.len() && j != i && eligible(#[trigger] rows[j], pred, bound) ==> newer(rows[i], rows[j])
            },
            None => forall|j: int| 0 <= j < rows.len() ==> !eligible(#[trigger] rows[j], pred, bound),
        },
    decreases rows.len(),
{
    if rows.len() > 0 {
        let sub = rows.drop_last();
        assert(distinct_ids(sub));
        lemma_best(sub, pred, bound);
        let l = rows.len() - 1;
        match best(sub, pred, bound) {
            Some(p) => {
                assert(sub[p] == rows[p]);
                assert forall|j: int| 0 <= j < rows.len() && j != l && eligible(#[trigger] rows[j], pred, bound) implies newer(rows[p], rows[j]) || j == p by {
                    assert(sub[j] == rows[j]);
                }
                assert(rows[p].id != rows[l].id);
            },
            None => {
                assert forall|j: int| 0 <= j < l implies !eligible(#[trigger] rows[j], pred, bound) by {
                    assert(sub[j] == rows[j]);
                }
            },
        }
    }
}

proof fn lemma_count_same(rows: Seq<RowView>, pred: spec_fn(RowView) -> bool, b1: Option<(i64, i64)>, b2: Option<(i64, i64)>)
    requires
        forall|j: int| 0 <= j < rows.len() ==> eligible(#[trigger] rows[j], pred, b1) == eligible(rows[j], pred, b2),
    ensures
        count_eligible(rows, pred, b1) == count_eligible(rows, pred, b2),
    decreases rows.len(),
{
    if rows.len() > 0 {
        let sub = rows.drop_last();
        assert forall|j: int| 0 <= j < sub.len() implies eligible(#[trigger] sub[j], pred, b1) == eligible(sub[j], pred, b2) by {
            assert(sub[j] == rows[j]);
        }
        lemma_count_same(sub, pred, b1, b2);
    }
}

proof fn lemma_count_minus_one(rows: Seq<RowView>, pred: spec_fn(RowView) -> bool, b1: Option<(i64, i64)>, b2: Option<(i64, i64)>, i: int)
    requires
        0 <= i < rows.len(),
        eligible(rows[i], pred, b2),
        !eligible(rows[i], pred, b1),
        forall|j: int| 0 <= j < rows.len() && j != i ==> eligible(#[trigger] rows[j], pred, b1) == eligible(rows[j], pred, b2),
    ensures
        count_eligible(rows, pred, b2) == count_eligible(rows, pred, b1) + 1,
    decreases rows.len(),
{
    let sub = rows.drop_last();
    let l = rows.len() - 1;
    if i == l {
        assert forall|j: int| 0 <= j < sub.len() implies eligible(#[trigger] sub[j], pred, b1) == eligible(sub[j], pred, b2) by {
            assert(sub[j] == rows[j]);
        }
        lemma_count_same(sub, pred, b1, b2);
    } else {
        assert(sub[i] == rows[i]);
        assert forall|j: int| 0 <= j < sub.len() && j != i implies eligible(#[trigger] sub[j], pred, b1) == eligible(sub[j], pred, b2) by {
            assert(sub[j] == rows[j]);
        }
        lemma_count_minus_one(sub, pred, b1, b2, i);
    }
}

proof fn lemma_count_zero(rows: Seq<RowView>, pred: spec_fn(RowView) -> bool, b: Option<(i64, i64)>)
    requires
        forall|j: int| 0 <= j < rows.len() ==> !eligible(#[trigger] rows[j], pred, b),
    ensures
        count_eligible(rows, pred, b) == 0,
    decreases rows.len(),
{
    if rows.len() > 0 {
        let sub = rows.drop_last();
        assert forall|j: int| 0 <= j < sub.len() implies !eligible(#[trigger] sub[j], pred, b) by {
            assert(sub[j] == rows[j]);
        }
        lemma_count_zero(sub, pred, b);
    }
}

/// No more rows are eligible than there are rows.
pub proof fn lemma_count_le(rows: Seq<RowView>, pred: spec_fn(RowView) -> bool, b: Option<(i64, i64)>)
    ensures
        count_eligible(rows, pred, b) <= rows.len(),
    decreases rows.len(),
{
    if rows.len() > 0 {
        lemma_count_le(rows.drop_last(), pred, b);
    }
}

/// Past the row that the selection picks, exactly one eligible row fewer remains.
pub proof fn lemma_count_after_best(rows: Seq<RowView>, pred: spec_fn(RowView) -> bool, b: Option<(i64, i64)>)
    requires
        distinct_ids(rows),
        best(rows, pred, b) is Some,
    ensures
        count_eligible(rows, pred, key_of(rows[best(rows, pred, b)->0])) + 1 == count_eligible(rows, pred, b),
{
    lemma_best(rows, pred, b);
    let i = best(rows, pred, b)->0;
    let k = key_of(rows[i]);
    assert forall|j: int| 0 <= j < rows.len() && j != i implies eligible(#[trigger] rows[j], pred, k) == eligible(rows[j], pred, b) by {
        assert(rows[j].id != rows[i].id);
    }
    lemma_count_minus_one(rows, pred, k, b, i);
}

/// The selection returns as many rows as asked for, or all eligible rows
/// when there are fewer.
pub proof fn lemma_top_len(rows: Seq<RowView>, pred: spec_fn(RowView) -> bool, b: Option<(i64, i64)>, k: nat)
    requires
        distinct_ids(rows),
    ensures
        top(rows, pred, b, k).len() == if k <= count_eligible(rows, pred, b) { k } else { count_eligible(rows, pred, b) },
    decreases k,
{
    if k > 0 {
        lemma_best(rows, pred, b);
        match best(rows, pred, b) {
            None => {
                lemma_count_zero(rows, pred, b);
            },
            Some(i) => {
                lemma_count_after_best(rows, pred, b);
                lemma_top_len(rows, pred, key_of(rows[i]), (k - 1) as nat);
            },
        }
    }
}

/// Asking for more rows than are eligible gives all eligible rows.
pub proof fn lemma_top_saturate(rows: Seq<RowView>, pred: spec_fn(RowView) -> bool, b: Option<(i64, i64)>, k: nat, m: nat)
    requires
        distinct_ids(rows),
        count_eligible(rows, pred, b) <= k <= m,
    ensures
        top(rows, pred, b, m) == top(rows, pred, b, k),
    decreases m - k,
{
    if m > k {
        lemma_top_saturate(rows, pred, b, k, (m - 1) as nat);
        lemma_top_step(rows, pred, b, (m - 1) as nat);
        lemma_top_len(rows, pred, b, (m - 1) as nat);
        lemma_top_len(rows, pred, b, m);
        assert(top(rows, pred, b, m) =~= top(rows, pred, b, (m - 1) as nat));
    }
}

/// The number of rows that a limit lets through: a negative limit is no
/// limit.
pub open spec fn limit_nat(limit: i64, n: nat) -> nat {
    if limit < 0 {
        n
    } else {
        limit as nat
    }
}

/// The selection with the limit cut to the row count is the selection with
/// the limit as given.
pub proof fn lemma_top_limit(rows: Seq<RowView>, pred: spec_fn(RowView) -> bool, b: Option<(i64, i64)>, limit: i64)
    requires
        distinct_ids(rows),
    ensures
        top(rows, pred, b, limit_count(limit, rows.len())) == top(rows, pred, b, limit_nat(limit, rows.len())),
{
    lemma_count_le(rows, pred, b);
    if limit >= 0 && limit >= rows.len() {
        lemma_top_saturate(rows, pred, b, rows.len(), limit as nat);
    }
}

/// The number of rows that a limit lets through over `n` rows, cut to `n`
/// (a negative limit is no limit).
pub open spec fn limit_count(limit: i64, n: nat) -> nat {
    if limit < 0 || limit >= n {
        n
    } else {
        limit as nat
    }
}

} // verus!
