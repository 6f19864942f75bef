//! The laws of the clipboard history: keyset paging, deduplication,
//! pruning, deletion and previews, stated over the table's model and proved
//! from the definitions that the operations' contracts use.

use vstd::prelude::*;
use vstd::utf8::{decode_utf8, encode_utf8, encode_utf8_decode_utf8};

use crate::clipboard_store::{
    content_of, cursor_bound, keyword_view, opt_seq, ListFilter, text_hash, touch_by_hash_post, touch_post, ClipboardItem, effective_keyword, evicted, flatten_pairs, has_hash, has_id, hash_index, id_index,
    image_row, lemma_retained_valid, list_rows, matcher, non_favorite, path_pair, preview,
    prune_kept, retained, survives, text_row, touched,
    upsert_fails, upserted, valid_rows, ClipboardKind, ContentView, ListCursor, RowView,
    PREVIEW_MAX_CHARS,
};
use crate::selection::{
    below, best, bound_after, count_eligible, distinct_ids, eligible, key_of, lemma_best,
    lemma_count_le, lemma_top_len, lemma_top_saturate, limit_nat, newer, top,
};

use crate::digest::blake3_hex;
use crate::text::{fold_ascii, lemma_trim_idempotent, occurs_at, trim_seq};

verus! {

proof fn lemma_top_concat(rows: Seq<RowView>, pred: spec_fn(RowView) -> bool, b: Option<(i64, i64)>, n: nat, m: nat)
    ensures
        top(rows, pred, b, n + m) == top(rows, pred, b, n) + top(rows, pred, bound_after(rows, pred, b, n), m),
    decreases n,
{
    if n == 0 {
        assert(top(rows, pred, b, 0) =~= seq![]);
        assert(top(rows, pred, b, n + m) =~= top(rows, pred, b, n) + top(rows, pred, bound_after(rows, pred, b, n), m));
    } else {
        match best(rows, pred, b) {
            None => {
                assert(top(rows, pred, b, n + m) =~= seq![]);
                assert(top(rows, pred, b, n) =~= seq![]);
                if m > 0 {
                    assert(top(rows, pred, b, m) =~= seq![]);
                } else {
                    assert(top(rows, pred, b, m) =~= seq![]);
                }
                assert(top(rows, pred, b, n + m) =~= top(rows, pred, b, n) + top(rows, pred, bound_after(rows, pred, b, n), m));
            },
            Some(i) => {
                let kb = key_of(rows[i]);
                lemma_top_concat(rows, pred, kb, (n - 1) as nat, m);
                assert((n + m - 1) as nat == (n - 1) as nat + m);
                assert(top(rows, pred, b, n + m) =~= top(rows, pred, b, n) + top(rows, pred, bound_after(rows, pred, b, n), m));
            },
        }
    }
}

proof fn lemma_bound_after_full(rows: Seq<RowView>, pred: spec_fn(RowView) -> bool, b: Option<(i64, i64)>, n: nat)
    requires
        n > 0,
        top(rows, pred, b, n).len() == n,
    ensures
        bound_after(rows, pred, b, n) == key_of(top(rows, pred, b, n).last()),
    decreases n,
{
    match best(rows, pred, b) {
        None => {},
        Some(i) => {
            let kb = key_of(rows[i]);
            let rest = top(rows, pred, kb, (n - 1) as nat);
            assert(top(rows, pred, b, n) == seq![rows[i]] + rest);
            assert(bound_after(rows, pred, b, n) == bound_after(rows, pred, kb, (n - 1) as nat));
            if n == 1 {
                assert(rest =~= seq![]);
                assert(bound_after(rows, pred, kb, 0) == kb);
                assert((seq![rows[i]] + rest).last() == rows[i]);
            } else {
                lemma_bound_after_full(rows, pred, kb, (n - 1) as nat);
                assert((seq![rows[i]] + rest).last() == rest.last());
            }
        },
    }
}

/// The cursor that follows an entry: its `(last_used_at, id)`.
pub open spec fn cursor_after(r: RowView) -> ListCursor {
    ListCursor { last_used_at: r.last_used_at, id: r.id }
}

/// Keyset paging: when a page of `n` entries is full, the page that starts
/// after its last entry holds exactly the entries that a single page of
/// `n + m` would have after the first `n`, whatever the filters.
pub proof fn law_keyset_pages_continue(
    rows: Seq<RowView>,
    keyword: Option<Seq<char>>,
    kind: Option<ClipboardKind>,
    favorite_only: bool,
    n: i64,
    m: i64,
    cursor: Option<ListCursor>,
)
    requires
        0 < n,
        0 <= m,
        n + m <= i64::MAX,
        list_rows(rows, keyword, kind, favorite_only, n, cursor).len() == n,
    ensures
        ({
            let page = list_rows(rows, keyword, kind, favorite_only, n, cursor);
            list_rows(rows, keyword, kind, favorite_only, (n + m) as i64, cursor)
                == page + list_rows(rows, keyword, kind, favorite_only, m, Some(cursor_after(page.last())))
        }),
{
    let pred = matcher(keyword, kind, favorite_only);
    let b = cursor_bound(cursor);
    lemma_top_concat(rows, pred, b, n as nat, m as nat);
    lemma_bound_after_full(rows, pred, b, n as nat);
    let page = top(rows, pred, b, n as nat);
    assert(cursor_bound(Some(cursor_after(page.last()))) == key_of(page.last()));
    assert(((n + m) as i64) as nat == n as nat + m as nat);
}

/// The selection is sound: every selected row is eligible, and the rows come
/// strictly newest first.
proof fn lemma_top_sound(rows: Seq<RowView>, pred: spec_fn(RowView) -> bool, b: Option<(i64, i64)>, k: nat)
    requires
        distinct_ids(rows),
    ensures
        forall|j: int| 0 <= j < top(rows, pred, b, k).len() ==> eligible(#[trigger] top(rows, pred, b, k)[j], pred, b),
        forall|j: int, q: int| 0 <= j < q < top(rows, pred, b, k).len() ==> newer(#[trigger] top(rows, pred, b, k)[j], #[trigger] top(rows, pred, b, k)[q]),
        forall|j: int| 0 <= j < top(rows, pred, b, k).len() ==> rows.contains(#[trigger] top(rows, pred, b, k)[j]),
    decreases k,
{
    if k > 0 {
        lemma_best(rows, pred, b);
        match best(rows, pred, b) {
            None => {},
            Some(i) => {
                let kb = key_of(rows[i]);
                lemma_top_sound(rows, pred, kb, (k - 1) as nat);
                let t = top(rows, pred, b, k);
                let rest = top(rows, pred, kb, (k - 1) as nat);
                assert(t == seq![rows[i]] + rest);
                assert forall|j: int| 0 <= j < t.len() implies eligible(#[trigger] t[j], pred, b) && rows.contains(t[j]) by {
                    if j > 0 {
                        assert(t[j] == rest[j - 1]);
                    } else {
                        assert(rows[i] == t[0]);
                    }
                }
                assert forall|j: int, q: int| 0 <= j < q < t.len() implies newer(#[trigger] t[j], #[trigger] t[q]) by {
                    assert(t[q] == rest[q - 1]);
                    assert(eligible(rest[q - 1], pred, kb));
                    if j > 0 {
                        assert(t[j] == rest[j - 1]);
                    }
                }
            },
        }
    }
}

/// The selection is complete: a row that is eligible but not selected is
/// older than every selected row.
proof fn lemma_top_complete(rows: Seq<RowView>, pred: spec_fn(RowView) -> bool, b: Option<(i64, i64)>, k: nat, r: RowView)
    requires
        distinct_ids(rows),
        rows.contains(r),
        eligible(r, pred, b),
        !top(rows, pred, b, k).contains(r),
    ensures
        forall|j: int| 0 <= j < top(rows, pred, b, k).len() ==> newer(#[trigger] top(rows, pred, b, k)[j], r),
    decreases k,
{
    if k > 0 {
        lemma_best(rows, pred, b);
        match best(rows, pred, b) {
            None => {},
            Some(i) => {
                let kb = key_of(rows[i]);
                let t = top(rows, pred, b, k);
                let rest = top(rows, pred, kb, (k - 1) as nat);
                assert(t == seq![rows[i]] + rest);
                assert(t[0] == rows[i]);
                let ri = choose|x: int| 0 <= x < rows.len() && rows[x] == r;
                assert(ri != i);
                assert(newer(rows[i], r));
                if rest.contains(r) {
                    let x = choose|x: int| 0 <= x < rest.len() && rest[x] == r;
                    assert(t[x + 1] == r);
                }
                lemma_top_complete(rows, pred, kb, (k - 1) as nat, r);
                assert forall|j: int| 0 <= j < t.len() implies newer(#[trigger] t[j], r) by {
                    if j > 0 {
                        assert(t[j] == rest[j - 1]);
                    }
                }
            },
        }
    }
}

/// A list is sound and complete: its entries match the filters, lie after
/// the cursor and come newest first; and a matching entry after the cursor
/// that is left out is older than every listed one. It holds as many entries
/// as the limit allows, or all matching entries after the cursor when fewer.
pub proof fn law_list_sound_and_complete(
    rows: Seq<RowView>,
    next_id: i64,
    keyword: Option<Seq<char>>,
    kind: Option<ClipboardKind>,
    favorite_only: bool,
    limit: i64,
    cursor: Option<ListCursor>,
)
    requires
        valid_rows(rows, next_id),
    ensures
        ({
            let page = list_rows(rows, keyword, kind, favorite_only, limit, cursor);
            let pred = matcher(keyword, kind, favorite_only);
            let b = cursor_bound(cursor);
            let available = count_eligible(rows, pred, b);
            let wanted = limit_nat(limit, rows.len());
            &&& page.len() == if wanted <= available { wanted } else { available }
            &&& forall|j: int| 0 <= j < page.len() ==> rows.contains(#[trigger] page[j]) && eligible(page[j], pred, b)
            &&& forall|j: int, q: int| 0 <= j < q < page.len() ==> newer(#[trigger] page[j], #[trigger] page[q])
            &&& forall|r: RowView| rows.contains(r) && eligible(r, pred, b) && !page.contains(r) ==>
                forall|j: int| 0 <= j < page.len() ==> newer(#[trigger] page[j], r)
        }),
{
    let pred = matcher(keyword, kind, favorite_only);
    let b = cursor_bound(cursor);
    let k = limit_nat(limit, rows.len());
    assert(distinct_ids(rows));
    lemma_top_len(rows, pred, b, k);
    lemma_top_sound(rows, pred, b, k);
    assert forall|r: RowView| rows.contains(r) && eligible(r, pred, b) && !top(rows, pred, b, k).contains(r) implies
        forall|j: int| 0 <= j < top(rows, pred, b, k).len() ==> newer(#[trigger] top(rows, pred, b, k)[j], r) by {
        lemma_top_complete(rows, pred, b, k, r);
    }
}

/// A keyword lists what its trimmed form lists, and a blank keyword lists
/// what no keyword lists (entries without text included).
pub proof fn law_keyword_is_trimmed(
    rows: Seq<RowView>,
    keyword: Seq<char>,
    kind: Option<ClipboardKind>,
    favorite_only: bool,
    limit: i64,
    cursor: Option<ListCursor>,
)
    ensures
        list_rows(rows, Some(keyword), kind, favorite_only, limit, cursor) == list_rows(
            rows,
            Some(trim_seq(keyword)),
            kind,
            favorite_only,
            limit,
            cursor,
        ),
        trim_seq(keyword).len() == 0 ==> list_rows(rows, Some(keyword), kind, favorite_only, limit, cursor)
            == list_rows(rows, None, kind, favorite_only, limit, cursor),
{
    lemma_trim_idempotent(keyword);
    assert(effective_keyword(Some(keyword)) == effective_keyword(Some(trim_seq(keyword))));
    assert(matcher(Some(keyword), kind, favorite_only) =~= matcher(Some(trim_seq(keyword)), kind, favorite_only));
    if trim_seq(keyword).len() == 0 {
        assert(matcher(Some(keyword), kind, favorite_only) =~= matcher(None, kind, favorite_only));
    }
}

/// The newest eligible row, as a row.
pub open spec fn best_row(rows: Seq<RowView>, pred: spec_fn(RowView) -> bool, b: Option<(i64, i64)>) -> Option<RowView> {
    match best(rows, pred, b) {
        Some(i) => Some(rows[i]),
        None => None,
    }
}

proof fn lemma_best_without(rows: Seq<RowView>, pred: spec_fn(RowView) -> bool, b: Option<(i64, i64)>, i: int)
    requires
        distinct_ids(rows),
        0 <= i < rows.len(),
        !below(rows[i], b),
    ensures
        best_row(rows.remove(i), pred, b) == best_row(rows, pred, b),
{
    let rr = rows.remove(i);
    assert forall|x: int, y: int| 0 <= x < rr.len() && 0 <= y < rr.len() && x != y implies rr[x].id != rr[y].id by {
        let x2 = if x < i { x } else { x + 1 };
        let y2 = if y < i { y } else { y + 1 };
        assert(rr[x] == rows[x2]);
        assert(rr[y] == rows[y2]);
    }
    lemma_best(rows, pred, b);
    lemma_best(rr, pred, b);
    match best(rows, pred, b) {
        None => {
            match best(rr, pred, b) {
                None => {},
                Some(j) => {
                    let j2 = if j < i { j } else { j + 1 };
                    assert(rr[j] == rows[j2]);
                },
            }
        },
        Some(j) => {
            assert(j != i);
            let j1 = if j < i { j } else { j - 1 };
            assert(rr[j1] == rows[j]);
            match best(rr, pred, b) {
                None => {},
                Some(x) => {
                    let x2 = if x < i { x } else { x + 1 };
                    assert(rr[x] == rows[x2]);
                    if x2 != j {
                        assert(newer(rows[j], rows[x2]));
                        assert(x != j1);
                        assert(newer(rr[x], rr[j1]));
                    }
                },
            }
        },
    }
}

proof fn lemma_top_without(rows: Seq<RowView>, pred: spec_fn(RowView) -> bool, b: Option<(i64, i64)>, k: nat, i: int)
    requires
        distinct_ids(rows),
        0 <= i < rows.len(),
        !below(rows[i], b),
    ensures
        top(rows.remove(i), pred, b, k) == top(rows, pred, b, k),
    decreases k,
{
    if k > 0 {
        lemma_best_without(rows, pred, b, i);
        lemma_best(rows, pred, b);
        let rr = rows.remove(i);
        match best(rows, pred, b) {
            None => {
                assert(best(rr, pred, b) is None);
            },
            Some(j) => {
                let x = best(rr, pred, b)->0;
                assert(rr[x] == rows[j]);
                lemma_top_without(rows, pred, key_of(rows[j]), (k - 1) as nat, i);
            },
        }
    }
}

/// Keyset pages survive deletions: deleting an entry that does not lie after
/// the cursor (one already shown) leaves the page after the cursor as it was.
pub proof fn law_page_survives_deletion(
    rows: Seq<RowView>,
    next_id: i64,
    keyword: Option<Seq<char>>,
    kind: Option<ClipboardKind>,
    favorite_only: bool,
    limit: i64,
    cursor: ListCursor,
    i: int,
)
    requires
        valid_rows(rows, next_id),
        0 <= i < rows.len(),
        !below(rows[i], cursor_bound(Some(cursor))),
    ensures
        list_rows(rows.remove(i), keyword, kind, favorite_only, limit, Some(cursor))
            == list_rows(rows, keyword, kind, favorite_only, limit, Some(cursor)),
{
    let pred = matcher(keyword, kind, favorite_only);
    let b = cursor_bound(Some(cursor));
    let rr = rows.remove(i);
    assert(distinct_ids(rows));
    assert forall|x: int, y: int| 0 <= x < rr.len() && 0 <= y < rr.len() && x != y implies rr[x].id != rr[y].id by {
        let x2 = if x < i { x } else { x + 1 };
        let y2 = if y < i { y } else { y + 1 };
        assert(rr[x] == rows[x2]);
        assert(rr[y] == rows[y2]);
    }
    if limit >= 0 {
        lemma_top_without(rows, pred, b, limit as nat, i);
    } else {
        lemma_top_without(rows, pred, b, rr.len(), i);
        lemma_count_le(rr, pred, b);
        lemma_count_le(rows, pred, b);
        assert forall|j: int| 0 <= j < rows.len() && j != i implies eligible(#[trigger] rows[j], pred, b) == eligible(rows[j], pred, b) by {}
        lemma_count_without(rows, pred, b, i);
        lemma_top_saturate(rows, pred, b, rr.len(), rows.len());
    }
}

proof fn lemma_count_without(rows: Seq<RowView>, pred: spec_fn(RowView) -> bool, b: Option<(i64, i64)>, i: int)
    requires
        0 <= i < rows.len(),
        !eligible(rows[i], pred, b),
    ensures
        count_eligible(rows, pred, b) == count_eligible(rows.remove(i), pred, b),
    decreases rows.len(),
{
    let sub = rows.drop_last();
    let l = rows.len() - 1;
    if i == l {
        assert(rows.remove(i) =~= sub);
    } else {
        assert(sub[i] == rows[i]);
        lemma_count_without(sub, pred, b, i);
        assert(rows.remove(i).drop_last() =~= sub.remove(i));
        assert(rows.remove(i).last() == rows.last());
    }
}

proof fn lemma_upserted_valid(rows: Seq<RowView>, next_id: i64, fresh: RowView, now: i64)
    requires
        valid_rows(rows, next_id),
        !upsert_fails(rows, next_id, fresh.hash),
    ensures
        valid_rows(upserted(rows, next_id, fresh, now).0, upserted(rows, next_id, fresh, now).1),
        upserted(rows, next_id, fresh, now).2.hash == fresh.hash,
        upserted(rows, next_id, fresh, now).0.contains(upserted(rows, next_id, fresh, now).2),
{
    let u = upserted(rows, next_id, fresh, now);
    if has_hash(rows, fresh.hash) {
        let i = hash_index(rows, fresh.hash);
        assert(u.0[i] == u.2);
    } else {
        assert(u.0[rows.len() as int] == u.2);
        assert forall|a: int, b: int| 0 <= a < b < u.0.len() implies u.0[a].hash != u.0[b].hash by {
            if b == rows.len() {
                assert(u.0[a] == rows[a]);
            }
        }
    }
}

/// Deduplication: recording the same content twice keeps a single entry.
/// The second recording adds no row, touches the entry that the first one
/// made or touched, and sets its last-used time.
pub proof fn law_upsert_same_content_keeps_one_entry(rows: Seq<RowView>, next_id: i64, first: RowView, second: RowView, now1: i64, now2: i64)
    requires
        valid_rows(rows, next_id),
        first.hash == second.hash,
        !upsert_fails(rows, next_id, first.hash),
    ensures
        ({
            let u1 = upserted(rows, next_id, first, now1);
            let u2 = upserted(u1.0, u1.1, second, now2);
            &&& !upsert_fails(u1.0, u1.1, second.hash)
            &&& u2.0.len() == u1.0.len()
            &&& u2.1 == u1.1
            &&& u2.2.id == u1.2.id
            &&& u2.2.last_used_at == now2
        }),
{
    lemma_upserted_valid(rows, next_id, first, now1);
    let u1 = upserted(rows, next_id, first, now1);
    let x = choose|x: int| 0 <= x < u1.0.len() && u1.0[x] == u1.2;
    assert(u1.0[x].hash == second.hash);
    assert(has_hash(u1.0, second.hash));
    let j = hash_index(u1.0, second.hash);
    if j != x {
        if j < x {
            assert(u1.0[j].hash != u1.0[x].hash);
        } else {
            assert(u1.0[x].hash != u1.0[j].hash);
        }
    }
}

proof fn lemma_retained_contains(rows: Seq<RowView>, pred: spec_fn(RowView) -> bool, r: RowView)
    ensures
        retained(rows, pred).contains(r) <==> (rows.contains(r) && pred(r)),
    decreases rows.len(),
{
    if rows.len() > 0 {
        let sub = rows.drop_last();
        lemma_retained_contains(sub, pred, r);
        if rows.contains(r) && r != rows.last() {
            let x = choose|x: int| 0 <= x < rows.len() && rows[x] == r;
            assert(sub[x] == r);
        }
        if sub.contains(r) {
            let x = choose|x: int| 0 <= x < sub.len() && sub[x] == r;
            assert(rows[x] == r);
        }
        if pred(rows.last()) {
            let rs = retained(sub, pred);
            if rs.push(rows.last()).contains(r) && r != rows.last() {
                let x = choose|x: int| 0 <= x < rs.len() + 1 && rs.push(rows.last())[x] == r;
                assert(rs[x] == r);
            }
            if rs.contains(r) {
                let x = choose|x: int| 0 <= x < rs.len() && rs[x] == r;
                assert(rs.push(rows.last())[x] == r);
            }
            assert(rs.push(rows.last())[rs.len() as int] == rows.last());
        }
        assert(rows[rows.len() - 1] == rows.last());
    }
}

/// Pruning keeps every favourite, and removes only non-favourite entries,
/// each older than every non-favourite entry that it keeps.
pub proof fn law_prune_spares_favorites_and_evicts_oldest(rows: Seq<RowView>, next_id: i64, keep: i64)
    requires
        valid_rows(rows, next_id),
    ensures
        forall|r: RowView| rows.contains(r) && r.favorite ==> retained(rows, survives(rows, keep)).contains(r),
        forall|r: RowView, q: RowView| rows.contains(r) && !retained(rows, survives(rows, keep)).contains(r)
            && retained(rows, survives(rows, keep)).contains(q) && !q.favorite ==> !r.favorite && newer(q, r),
{
    let p = survives(rows, keep);
    let kept = prune_kept(rows, keep);
    let k = limit_nat(keep, rows.len());
    assert(distinct_ids(rows));
    lemma_top_sound(rows, non_favorite(), None, k);
    assert forall|r: RowView| rows.contains(r) && r.favorite implies retained(rows, p).contains(r) by {
        lemma_retained_contains(rows, p, r);
    }
    assert forall|r: RowView, q: RowView| rows.contains(r) && !retained(rows, p).contains(r)
        && retained(rows, p).contains(q) && !q.favorite implies !r.favorite && newer(q, r) by {
        lemma_retained_contains(rows, p, r);
        lemma_retained_contains(rows, p, q);
        assert(!p(r));
        assert(p(q));
        let jq = choose|j: int| 0 <= j < kept.len() && (#[trigger] kept[j]).id == q.id;
        assert(rows.contains(kept[jq]));
        let a = choose|a: int| 0 <= a < rows.len() && rows[a] == kept[jq];
        let c = choose|c: int| 0 <= c < rows.len() && rows[c] == q;
        assert(rows[a].id == rows[c].id);
        assert(kept[jq] == q);
        if kept.contains(r) {
            let x = choose|x: int| 0 <= x < kept.len() && kept[x] == r;
            assert(kept[x].id == r.id);
        }
        assert(eligible(r, non_favorite(), None));
        lemma_top_complete(rows, non_favorite(), None, k, r);
        assert(newer(kept[jq], r));
    }
}


/// Selecting from a part of the rows: when `sub` holds only rows of `rows`,
/// with distinct ids, and holds every row that the selection from `rows`
/// picks, selecting from `sub` picks the same rows.
proof fn lemma_top_sub(rows: Seq<RowView>, sub: Seq<RowView>, pred: spec_fn(RowView) -> bool, b: Option<(i64, i64)>, k: nat)
    requires
        distinct_ids(rows),
        distinct_ids(sub),
        forall|j: int| 0 <= j < sub.len() ==> rows.contains(#[trigger] sub[j]),
        forall|j: int| 0 <= j < top(rows, pred, b, k).len() ==> sub.contains(#[trigger] top(rows, pred, b, k)[j]),
    ensures
        top(sub, pred, b, k) == top(rows, pred, b, k),
    decreases k,
{
    if k > 0 {
        lemma_best(rows, pred, b);
        lemma_best(sub, pred, b);
        match best(rows, pred, b) {
            None => {
                if let Some(s) = best(sub, pred, b) {
                    assert(rows.contains(sub[s]));
                    let x = choose|x: int| 0 <= x < rows.len() && rows[x] == sub[s];
                    assert(!eligible(rows[x], pred, b));
                }
            },
            Some(i) => {
                let t = top(rows, pred, b, k);
                let kb = key_of(rows[i]);
                let rest = top(rows, pred, kb, (k - 1) as nat);
                assert(t == seq![rows[i]] + rest);
                assert(t[0] == rows[i]);
                assert(sub.contains(t[0]));
                let s0 = choose|x: int| 0 <= x < sub.len() && sub[x] == rows[i];
                match best(sub, pred, b) {
                    None => {
                        assert(!eligible(sub[s0], pred, b));
                    },
                    Some(s) => {
                        if s != s0 {
                            assert(newer(sub[s], sub[s0]));
                            assert(rows.contains(sub[s]));
                            let x = choose|x: int| 0 <= x < rows.len() && rows[x] == sub[s];
                            assert(sub[s].id != sub[s0].id);
                            assert(x != i);
                            assert(newer(rows[i], rows[x]));
                        }
                    },
                }
                assert forall|j: int| 0 <= j < rest.len() implies sub.contains(#[trigger] rest[j]) by {
                    assert(rest[j] == t[j + 1]);
                }
                lemma_top_sub(rows, sub, pred, kb, (k - 1) as nat);
            },
        }
    }
}

proof fn lemma_retained_len(rows: Seq<RowView>, pred: spec_fn(RowView) -> bool)
    ensures
        retained(rows, pred).len() <= rows.len(),
    decreases rows.len(),
{
    if rows.len() > 0 {
        lemma_retained_len(rows.drop_last(), pred);
    }
}

proof fn lemma_retained_all(rows: Seq<RowView>, pred: spec_fn(RowView) -> bool)
    requires
        forall|j: int| 0 <= j < rows.len() ==> pred(#[trigger] rows[j]),
    ensures
        retained(rows, pred) == rows,
    decreases rows.len(),
{
    if rows.len() > 0 {
        let sub = rows.drop_last();
        assert forall|j: int| 0 <= j < sub.len() implies pred(#[trigger] sub[j]) by {
            assert(sub[j] == rows[j]);
        }
        lemma_retained_all(sub, pred);
        assert(pred(rows[rows.len() - 1]));
        assert(sub.push(rows.last()) =~= rows);
    }
}

proof fn lemma_retained_none(rows: Seq<RowView>, pred: spec_fn(RowView) -> bool)
    requires
        forall|j: int| 0 <= j < rows.len() ==> !pred(#[trigger] rows[j]),
    ensures
        retained(rows, pred) == Seq::<RowView>::empty(),
    decreases rows.len(),
{
    if rows.len() > 0 {
        let sub = rows.drop_last();
        assert forall|j: int| 0 <= j < sub.len() implies !pred(#[trigger] sub[j]) by {
            assert(sub[j] == rows[j]);
        }
        lemma_retained_none(sub, pred);
        assert(!pred(rows[rows.len() - 1]));
    }
}

/// Pruning settles the history: pruning again to the same limit keeps every
/// entry and deletes none, so it reports no image files.
pub proof fn law_prune_twice_removes_nothing(rows: Seq<RowView>, next_id: i64, keep: i64)
    requires
        valid_rows(rows, next_id),
    ensures
        ({
            let once = retained(rows, survives(rows, keep));
            let evicted_again = retained(once, evicted(once, keep));
            &&& retained(once, survives(once, keep)) == once
            &&& evicted_again == Seq::<RowView>::empty()
            &&& flatten_pairs(evicted_again.map_values(|x: RowView| path_pair(x))) == Seq::<Seq<char>>::empty()
        }),
{
    let nf = non_favorite();
    let once = retained(rows, survives(rows, keep));
    let k = limit_nat(keep, rows.len());
    let kept = prune_kept(rows, keep);
    lemma_retained_valid(rows, survives(rows, keep), next_id);
    assert(distinct_ids(rows));
    assert(distinct_ids(once));
    lemma_top_sound(rows, nf, None, k);
    assert forall|j: int| 0 <= j < once.len() implies rows.contains(#[trigger] once[j]) by {
        let x = choose|x: int| 0 <= x < rows.len() && rows[x] == once[j];
    }
    assert forall|j: int| 0 <= j < kept.len() implies once.contains(#[trigger] kept[j]) by {
        lemma_retained_contains(rows, survives(rows, keep), kept[j]);
        assert(survives(rows, keep)(kept[j]));
    }
    lemma_top_sub(rows, once, nf, None, k);
    if keep < 0 {
        lemma_retained_len(rows, survives(rows, keep));
        lemma_count_le(once, nf, None);
        lemma_top_saturate(once, nf, None, once.len(), rows.len());
    }
    assert(prune_kept(once, keep) == kept);
    assert(survives(once, keep) =~= survives(rows, keep));
    assert forall|j: int| 0 <= j < once.len() implies survives(once, keep)(#[trigger] once[j]) by {
        assert(once.contains(once[j]));
        lemma_retained_contains(rows, survives(rows, keep), once[j]);
    }
    lemma_retained_all(once, survives(once, keep));
    lemma_retained_none(once, evicted(once, keep));
    let ev = retained(once, evicted(once, keep));
    assert(ev.map_values(|x: RowView| path_pair(x)) =~= Seq::<(Option<Seq<char>>, Option<Seq<char>>)>::empty());
}

/// Copying brings an entry to the front: recording content (new or already
/// present; `fresh` is a new row stamped `now`, as [`text_row`] and
/// [`image_row`] make) at a time later than every entry's last use makes that
/// entry the first of the unfiltered list.
pub proof fn law_recorded_entry_comes_first(rows: Seq<RowView>, next_id: i64, fresh: RowView, now: i64, limit: i64)
    requires
        valid_rows(rows, next_id),
        !upsert_fails(rows, next_id, fresh.hash),
        fresh.last_used_at == now,
        forall|j: int| 0 <= j < rows.len() ==> (#[trigger] rows[j]).last_used_at < now,
        limit != 0,
    ensures
        ({
            let u = upserted(rows, next_id, fresh, now);
            let page = list_rows(u.0, None, None, false, limit, None);
            page.len() > 0 && page[0] == u.2
        }),
{
    lemma_upserted_valid(rows, next_id, fresh, now);
    let u = upserted(rows, next_id, fresh, now);
    let t = u.0;
    let pred = matcher(None, None, false);
    assert(distinct_ids(t));
    let x = choose|x: int| 0 <= x < t.len() && t[x] == u.2;
    assert(u.2.last_used_at == now);
    assert(eligible(t[x], pred, None));
    lemma_best(t, pred, None);
    let i = best(t, pred, None)->0;
    if i != x {
        assert(newer(t[i], t[x]));
        if has_hash(rows, fresh.hash) {
            let h = hash_index(rows, fresh.hash);
            assert(x == h) by {
                if x != h {
                    assert(t[x] == rows[x]);
                    assert(rows[x].last_used_at < now);
                }
            }
            assert(t[i] == rows[i]);
        } else {
            assert(x == rows.len()) by {
                if x < rows.len() {
                    assert(t[x] == rows[x]);
                }
            }
            assert(t[i] == rows[i]);
        }
    }
    let k = limit_nat(limit, t.len());
    assert(k > 0);
    assert(top(t, pred, None, k) == seq![t[i]] + top(t, pred, key_of(t[i]), (k - 1) as nat));
}

/// Deleting an entry removes it: afterwards no entry has its id, and the
/// table stays valid.
pub proof fn law_deleted_entry_is_gone(rows: Seq<RowView>, next_id: i64, id: i64)
    requires
        valid_rows(rows, next_id),
        has_id(rows, id),
    ensures
        !has_id(rows.remove(id_index(rows, id)), id),
        valid_rows(rows.remove(id_index(rows, id)), next_id),
{
    let i = id_index(rows, id);
    let rr = rows.remove(i);
    if has_id(rr, id) {
        let j = choose|j: int| 0 <= j < rr.len() && (#[trigger] rr[j]).id == id;
        let j2 = if j < i { j } else { j + 1 };
        assert(rr[j] == rows[j2]);
        assert(j2 != i);
        if j2 < i {
            assert(rows[j2].id < rows[i].id);
        } else {
            assert(rows[i].id < rows[j2].id);
        }
    }
    assert forall|a: int, b: int| 0 <= a < b < rr.len() implies rr[a].id < rr[b].id && rr[a].hash != rr[b].hash by {
        let a2 = if a < i { a } else { a + 1 };
        let b2 = if b < i { b } else { b + 1 };
        assert(rr[a] == rows[a2]);
        assert(rr[b] == rows[b2]);
    }
    assert forall|a: int| 0 <= a < rr.len() implies (#[trigger] rr[a]).id < next_id by {
        let a2 = if a < i { a } else { a + 1 };
        assert(rr[a] == rows[a2]);
    }
}


/// Previews cut texts without losing them: the preview of a text entry is
/// its first [`PREVIEW_MAX_CHARS`] characters (all of them for a shorter
/// text), its length counts every character of the text, and the content
/// read back by id is the full text.
pub proof fn law_preview_cuts_but_content_is_whole(r: RowView)
    requires
        r.kind == ClipboardKind::Text,
        r.text is Some,
    ensures
        ({
            let t = r.text->0;
            let p = preview(r).text_preview->0;
            &&& p.len() == if t.len() <= PREVIEW_MAX_CHARS { t.len() } else { PREVIEW_MAX_CHARS as nat }
            &&& p == t.take(p.len() as int)
            &&& preview(r).text_length == Some(t.len() as i64)
            &&& content_of(r) == Some(ContentView::Text(t))
        }),
{
    let t = r.text->0;
    if t.len() <= PREVIEW_MAX_CHARS {
        assert(t.take(t.len() as int) =~= t);
    }
}

// ---------------------------------------------------------------------------
// The list filters, stated on their own.
// ---------------------------------------------------------------------------

/// A character's code with ASCII capitals taken as lower case.
pub open spec fn ascii_lower_code(c: char) -> int {
    if 'A' <= c && c <= 'Z' {
        c as int + 32
    } else {
        c as int
    }
}

/// What the list filters ask of an entry, all of them together: a favourite
/// when only favourites are wanted; of the kind asked for, if any; and, for
/// a keyword that is not blank, a text in which the trimmed keyword occurs
/// with ASCII letters compared without case.
pub open spec fn satisfies_filters(r: RowView, keyword: Option<Seq<char>>, kind: Option<ClipboardKind>, favorite_only: bool) -> bool {
    &&& (favorite_only ==> r.favorite)
    &&& (kind is Some ==> r.kind == kind->0)
    &&& (keyword is Some && trim_seq(keyword->0).len() > 0 ==> {
        let k = trim_seq(keyword->0);
        &&& r.text is Some
        &&& exists|i: int| keyword_at(r.text->0, k, i)
    })
}

/// `k` occurs in `t` at position `i`, ASCII letters compared without case.
pub open spec fn keyword_at(t: Seq<char>, k: Seq<char>, i: int) -> bool {
    &&& 0 <= i
    &&& i + k.len() <= t.len()
    &&& forall|j: int| 0 <= j < k.len() ==> ascii_lower_code(#[trigger] t[i + j]) == ascii_lower_code(k[j])
}

/// `r` lies after the cursor: used earlier than the cursor's entry, or at
/// the same time with a smaller id.
pub open spec fn after_cursor(r: RowView, cursor: Option<ListCursor>) -> bool {
    match cursor {
        None => true,
        Some(c) => r.last_used_at < c.last_used_at || (r.last_used_at == c.last_used_at && r.id < c.id),
    }
}

/// `a` comes before `b` in a list: used later, or at the same time with a
/// larger id.
pub open spec fn listed_before(a: RowView, b: RowView) -> bool {
    a.last_used_at > b.last_used_at || (a.last_used_at == b.last_used_at && a.id > b.id)
}

proof fn lemma_fold_is_ascii_lower(c: char, d: char)
    ensures
        (fold_ascii(c) == fold_ascii(d)) <==> (ascii_lower_code(c) == ascii_lower_code(d)),
{
    assert(fold_ascii(c) as int == ascii_lower_code(c));
    assert(fold_ascii(d) as int == ascii_lower_code(d));
}

proof fn lemma_matcher_is_filters(r: RowView, keyword: Option<Seq<char>>, kind: Option<ClipboardKind>, favorite_only: bool)
    ensures
        matcher(keyword, kind, favorite_only)(r) <==> satisfies_filters(r, keyword, kind, favorite_only),
{
    if keyword is Some && trim_seq(keyword->0).len() > 0 && r.text is Some {
        let k = trim_seq(keyword->0);
        let t = r.text->0;
        assert(effective_keyword(keyword) == Some(k));
        if exists|i: int| occurs_at(t, k, i) {
            let i = choose|i: int| occurs_at(t, k, i);
            assert forall|j: int| 0 <= j < k.len() implies ascii_lower_code(#[trigger] t[i + j]) == ascii_lower_code(k[j]) by {
                lemma_fold_is_ascii_lower(t[i + j], k[j]);
            }
            assert(keyword_at(t, k, i));
        }
        if exists|i: int| keyword_at(t, k, i) {
            let i = choose|i: int| keyword_at(t, k, i);
            assert forall|j: int| 0 <= j < k.len() implies fold_ascii(#[trigger] t[i + j]) == fold_ascii(k[j]) by {
                lemma_fold_is_ascii_lower(t[i + j], k[j]);
            }
            assert(occurs_at(t, k, i));
        }
    }
}

/// A list returns only what the filters ask for, from the table, after the
/// cursor, newest first, and no more than the limit: with favourites only,
/// every entry is a favourite whatever the keyword; with a kind, every entry
/// has it; with a keyword, every entry's text holds it.
pub proof fn law_list_returns_only_matching_entries(
    rows: Seq<RowView>,
    next_id: i64,
    keyword: Option<Seq<char>>,
    kind: Option<ClipboardKind>,
    favorite_only: bool,
    limit: i64,
    cursor: Option<ListCursor>,
)
    requires
        valid_rows(rows, next_id),
    ensures
        ({
            let page = list_rows(rows, keyword, kind, favorite_only, limit, cursor);
            &&& forall|j: int| 0 <= j < page.len() ==> {
                &&& rows.contains(#[trigger] page[j])
                &&& satisfies_filters(page[j], keyword, kind, favorite_only)
                &&& after_cursor(page[j], cursor)
            }
            &&& forall|j: int, q: int| 0 <= j < q < page.len() ==> listed_before(#[trigger] page[j], #[trigger] page[q])
            &&& limit >= 0 ==> page.len() <= limit
        }),
{
    let page = list_rows(rows, keyword, kind, favorite_only, limit, cursor);
    let pred = matcher(keyword, kind, favorite_only);
    let b = cursor_bound(cursor);
    let k = limit_nat(limit, rows.len());
    assert(distinct_ids(rows));
    lemma_top_sound(rows, pred, b, k);
    lemma_top_len(rows, pred, b, k);
    assert forall|j: int| 0 <= j < page.len() implies satisfies_filters(#[trigger] page[j], keyword, kind, favorite_only) && after_cursor(page[j], cursor) by {
        assert(eligible(page[j], pred, b));
        lemma_matcher_is_filters(page[j], keyword, kind, favorite_only);
    }
}

proof fn lemma_top_full(rows: Seq<RowView>, pred: spec_fn(RowView) -> bool, b: Option<(i64, i64)>, k: nat, r: RowView)
    requires
        distinct_ids(rows),
        rows.contains(r),
        eligible(r, pred, b),
        !top(rows, pred, b, k).contains(r),
    ensures
        top(rows, pred, b, k).len() == k,
    decreases k,
{
    if k > 0 {
        lemma_best(rows, pred, b);
        let x = choose|x: int| 0 <= x < rows.len() && rows[x] == r;
        let i = best(rows, pred, b)->0;
        let kb = key_of(rows[i]);
        let t = top(rows, pred, b, k);
        let rest = top(rows, pred, kb, (k - 1) as nat);
        assert(t == seq![rows[i]] + rest);
        assert(t[0] == rows[i]);
        assert(x != i);
        assert(newer(rows[i], rows[x]));
        assert(eligible(r, pred, kb));
        if rest.contains(r) {
            let y = choose|y: int| 0 <= y < rest.len() && rest[y] == r;
            assert(t[y + 1] == r);
        }
        lemma_top_full(rows, pred, kb, (k - 1) as nat, r);
    }
}

/// A list misses nothing that the filters ask for: an entry of the table
/// that passes the filters and lies after the cursor but is not listed is
/// older than every listed entry, and the list is then as long as the limit
/// allows (a negative limit allowing the whole table).
pub proof fn law_list_misses_no_matching_entry(
    rows: Seq<RowView>,
    next_id: i64,
    keyword: Option<Seq<char>>,
    kind: Option<ClipboardKind>,
    favorite_only: bool,
    limit: i64,
    cursor: Option<ListCursor>,
)
    requires
        valid_rows(rows, next_id),
    ensures
        ({
            let page = list_rows(rows, keyword, kind, favorite_only, limit, cursor);
            forall|r: RowView| rows.contains(r) && satisfies_filters(r, keyword, kind, favorite_only) && after_cursor(r, cursor)
                && !page.contains(r) ==> {
                &&& page.len() == if limit < 0 { rows.len() as int } else { limit as int }
                &&& forall|j: int| 0 <= j < page.len() ==> listed_before(#[trigger] page[j], r)
            }
        }),
{
    let page = list_rows(rows, keyword, kind, favorite_only, limit, cursor);
    let pred = matcher(keyword, kind, favorite_only);
    let b = cursor_bound(cursor);
    let k = limit_nat(limit, rows.len());
    assert(distinct_ids(rows));
    assert forall|r: RowView| rows.contains(r) && satisfies_filters(r, keyword, kind, favorite_only) && after_cursor(r, cursor)
        && !page.contains(r) implies {
        &&& page.len() == if limit < 0 { rows.len() as int } else { limit as int }
        &&& forall|j: int| 0 <= j < page.len() ==> listed_before(#[trigger] page[j], r)
    } by {
        lemma_matcher_is_filters(r, keyword, kind, favorite_only);
        assert(eligible(r, pred, b));
        lemma_top_full(rows, pred, b, k, r);
        lemma_top_complete(rows, pred, b, k, r);
    }
}

/// A text's deduplication key is the BLAKE3 digest of its exact UTF-8
/// bytes: the message digested decodes back to the text itself (nothing is
/// folded, cut or added), so two different texts have their keys computed
/// over different messages.
pub proof fn law_text_key_hashes_exact_utf8(t1: Seq<char>, t2: Seq<char>)
    ensures
        text_hash(t1) == blake3_hex(encode_utf8(t1)),
        exists|m: Seq<u8>| #![trigger blake3_hex(m)] text_hash(t1) == blake3_hex(m) && decode_utf8(m) == t1,
        t1 != t2 ==> encode_utf8(t1) != encode_utf8(t2),
{
    encode_utf8_decode_utf8(t1);
    encode_utf8_decode_utf8(t2);
    assert(text_hash(t1) == blake3_hex(encode_utf8(t1)));
}

/// Touching an entry by id (what pasting or copying it back does) sets its
/// last-used time to `now` and changes nothing else, neither in the entry nor
/// in the table; an id that no entry has changes nothing. When `now` is
/// later than every other entry's last use, the touched entry comes first in
/// the unfiltered list.
pub proof fn law_touch_sets_last_use_and_moves_to_front(
    old_rows: Seq<RowView>,
    next_id: i64,
    id: i64,
    now: i64,
    new_rows: Seq<RowView>,
    limit: i64,
)
    requires
        valid_rows(old_rows, next_id),
        touch_post(old_rows, id, now, new_rows),
    ensures
        new_rows.len() == old_rows.len(),
        forall|j: int| 0 <= j < old_rows.len() ==> if (#[trigger] old_rows[j]).id == id {
            new_rows[j] == (RowView { last_used_at: now, ..old_rows[j] })
        } else {
            new_rows[j] == old_rows[j]
        },
        (exists|j: int| 0 <= j < old_rows.len() && (#[trigger] old_rows[j]).id == id)
            && (forall|j: int| 0 <= j < old_rows.len() && (#[trigger] old_rows[j]).id != id ==> old_rows[j].last_used_at < now)
            && limit != 0 ==> {
            let page = list_rows(new_rows, None, None, false, limit, None);
            &&& page.len() > 0
            &&& page[0].id == id
            &&& page[0].last_used_at == now
        },
{
    if has_id(old_rows, id) {
        let x = id_index(old_rows, id);
        assert forall|j: int| 0 <= j < old_rows.len() implies if (#[trigger] old_rows[j]).id == id {
            new_rows[j] == (RowView { last_used_at: now, ..old_rows[j] })
        } else {
            new_rows[j] == old_rows[j]
        } by {
            if old_rows[j].id == id {
                assert(j == x);
            }
        }
        if (forall|j: int| 0 <= j < old_rows.len() && (#[trigger] old_rows[j]).id != id ==> old_rows[j].last_used_at < now) && limit != 0 {
            let pred = matcher(None, None, false);
            assert forall|a: int, b: int| 0 <= a < new_rows.len() && 0 <= b < new_rows.len() && a != b implies new_rows[a].id != new_rows[b].id by {
                assert(new_rows[a].id == old_rows[a].id);
                assert(new_rows[b].id == old_rows[b].id);
            }
            assert(distinct_ids(new_rows));
            assert(eligible(new_rows[x], pred, None));
            lemma_best(new_rows, pred, None);
            let i = best(new_rows, pred, None)->0;
            if i != x {
                assert(newer(new_rows[i], new_rows[x]));
                assert(old_rows[i].id != id);
                assert(new_rows[i] == old_rows[i]);
            }
            let k = limit_nat(limit, new_rows.len());
            assert(k > 0);
            assert(top(new_rows, pred, None, k) == seq![new_rows[i]] + top(new_rows, pred, key_of(new_rows[i]), (k - 1) as nat));
        }
    }
}

/// Touching an entry by content hash (recording content that is already in
/// the history) finds the entry exactly when one has that hash, sets its
/// last-used time to `now`, returns it, and changes nothing else.
pub proof fn law_touch_by_hash_finds_the_entry(
    old_rows: Seq<RowView>,
    next_id: i64,
    hash: Seq<char>,
    now: i64,
    new_rows: Seq<RowView>,
    r: Option<ClipboardItem>,
)
    requires
        valid_rows(old_rows, next_id),
        touch_by_hash_post(old_rows, hash, now, new_rows, r),
    ensures
        r is Some <==> exists|j: int| 0 <= j < old_rows.len() && (#[trigger] old_rows[j]).hash == hash,
        new_rows.len() == old_rows.len(),
        forall|j: int| 0 <= j < old_rows.len() ==> if (#[trigger] old_rows[j]).hash == hash {
            &&& new_rows[j] == (RowView { last_used_at: now, ..old_rows[j] })
            &&& r matches Some(item) && item@.id == old_rows[j].id && item@.last_used_at == now
        } else {
            new_rows[j] == old_rows[j]
        },
{
    if has_hash(old_rows, hash) {
        let x = hash_index(old_rows, hash);
        assert forall|j: int| 0 <= j < old_rows.len() && (#[trigger] old_rows[j]).hash == hash implies j == x by {}
    }
}

/// A preview carries the entry's own fields unchanged: id, kind, image
/// paths and size, file list, favourite flag and times; only the text is
/// cut, and an entry without text has neither preview text nor length.
pub proof fn law_preview_keeps_the_entry(r: RowView)
    ensures
        preview(r).id == r.id,
        preview(r).kind == r.kind,
        preview(r).image_path == r.image_path,
        preview(r).thumbnail_path == r.thumbnail_path,
        preview(r).image_width == r.width,
        preview(r).image_height == r.height,
        preview(r).file_paths == r.file_paths,
        preview(r).is_favorite == r.favorite,
        preview(r).created_at == r.created_at,
        preview(r).last_used_at == r.last_used_at,
        r.text is None ==> preview(r).text_preview is None && preview(r).text_length is None,
        r.text is Some ==> preview(r).text_preview is Some,
{
}

/// What an entry gives back for pasting: a text entry its whole text, an
/// image entry the path of its original (not its thumbnail), a files entry
/// nothing.
pub proof fn law_content_is_what_was_stored(r: RowView)
    ensures
        r.kind == ClipboardKind::Text && r.text is Some ==> content_of(r) == Some(ContentView::Text(r.text->0)),
        r.kind == ClipboardKind::Image && r.image_path is Some ==> content_of(r) == Some(ContentView::Image(r.image_path->0)),
        r.kind == ClipboardKind::Files ==> content_of(r) is None,
{
}

/// Recording content either touches the entry that already has its hash or
/// appends a new entry. Touching sets that entry's last-used time to `now`
/// and changes nothing else; a new entry is the content with the next id,
/// stamped `now` (as [`text_row`] and [`image_row`] make it), after every
/// existing entry, which all stay as they were. A new text entry holds the
/// text, is not a favourite, and was created and last used at `now`.
pub proof fn law_recording_touches_or_appends(rows: Seq<RowView>, next_id: i64, fresh: RowView, now: i64)
    requires
        valid_rows(rows, next_id),
        next_id < i64::MAX || exists|j: int| 0 <= j < rows.len() && (#[trigger] rows[j]).hash == fresh.hash,
    ensures
        ({
            let u = upserted(rows, next_id, fresh, now);
            if exists|j: int| 0 <= j < rows.len() && (#[trigger] rows[j]).hash == fresh.hash {
                &&& u.0.len() == rows.len()
                &&& u.1 == next_id
                &&& forall|j: int| 0 <= j < rows.len() ==> if (#[trigger] rows[j]).hash == fresh.hash {
                    u.0[j] == (RowView { last_used_at: now, ..rows[j] }) && u.2 == u.0[j]
                } else {
                    u.0[j] == rows[j]
                }
            } else {
                &&& u.0.len() == rows.len() + 1
                &&& u.1 == next_id + 1
                &&& forall|j: int| 0 <= j < rows.len() ==> u.0[j] == rows[j]
                &&& u.0[rows.len() as int] == u.2
                &&& u.2 == (RowView { id: next_id, ..fresh })
            }
        }),
        forall|t: Seq<char>, h: Seq<char>| #![trigger text_row(t, h, now)] {
            let r = text_row(t, h, now);
            &&& r.kind == ClipboardKind::Text
            &&& r.text == Some(t)
            &&& r.hash == h
            &&& !r.favorite
            &&& r.created_at == now
            &&& r.last_used_at == now
            &&& r.image_path is None && r.thumbnail_path is None && r.file_paths is None
        },
{
    if has_hash(rows, fresh.hash) {
        let x = hash_index(rows, fresh.hash);
        assert forall|j: int| 0 <= j < rows.len() && (#[trigger] rows[j]).hash == fresh.hash implies j == x by {}
    } else {
        let u = upserted(rows, next_id, fresh, now);
        assert(u.0[rows.len() as int] == u.2);
    }
}

proof fn lemma_flatten_contains(pairs: Seq<(Option<Seq<char>>, Option<Seq<char>>)>, p: Seq<char>)
    ensures
        flatten_pairs(pairs).contains(p) <==> exists|i: int| 0 <= i < pairs.len() && ((#[trigger] pairs[i]).0 == Some(p) || pairs[i].1 == Some(p)),
    decreases pairs.len(),
{
    if pairs.len() > 0 {
        let sub = pairs.drop_last();
        lemma_flatten_contains(sub, p);
        let l = pairs.len() - 1;
        let a = flatten_pairs(sub);
        let b = opt_seq(pairs.last().0);
        let c = opt_seq(pairs.last().1);
        assert(flatten_pairs(pairs) == a + b + c);
        if flatten_pairs(pairs).contains(p) {
            let k = choose|k: int| 0 <= k < (a + b + c).len() && (a + b + c)[k] == p;
            if k < a.len() {
                assert(a[k] == p);
                let i = choose|i: int| 0 <= i < sub.len() && ((#[trigger] sub[i]).0 == Some(p) || sub[i].1 == Some(p));
                assert(pairs[i] == sub[i]);
            } else if k < a.len() + b.len() {
                assert(pairs[l].0 == Some(p));
            } else {
                assert(pairs[l].1 == Some(p));
            }
        }
        if exists|i: int| 0 <= i < pairs.len() && ((#[trigger] pairs[i]).0 == Some(p) || pairs[i].1 == Some(p)) {
            let i = choose|i: int| 0 <= i < pairs.len() && ((#[trigger] pairs[i]).0 == Some(p) || pairs[i].1 == Some(p));
            if i < l {
                assert(sub[i] == pairs[i]);
                let k = choose|k: int| 0 <= k < a.len() && a[k] == p;
                assert((a + b + c)[k] == p);
            } else if pairs[l].0 == Some(p) {
                assert((a + b + c)[a.len() as int] == p);
            } else {
                assert((a + b + c)[(a.len() + b.len()) as int] == p);
            }
        }
    }
}

/// Pruning reports exactly the files of the entries it deletes: a path is
/// in the report if and only if it is the original or the thumbnail of an
/// entry of the table that pruning does not keep.
pub proof fn law_prune_reports_the_files_of_deleted_entries(rows: Seq<RowView>, next_id: i64, keep: i64, p: Seq<char>)
    requires
        valid_rows(rows, next_id),
    ensures
        flatten_pairs(retained(rows, evicted(rows, keep)).map_values(|x: RowView| path_pair(x))).contains(p) <==> exists|r: RowView|
            #![trigger rows.contains(r), retained(rows, survives(rows, keep)).contains(r)]
            rows.contains(r) && !retained(rows, survives(rows, keep)).contains(r) && (r.image_path == Some(p) || r.thumbnail_path == Some(p)),
{
    let ev = retained(rows, evicted(rows, keep));
    let pairs = ev.map_values(|x: RowView| path_pair(x));
    lemma_flatten_contains(pairs, p);
    if flatten_pairs(pairs).contains(p) {
        let i = choose|i: int| 0 <= i < pairs.len() && ((#[trigger] pairs[i]).0 == Some(p) || pairs[i].1 == Some(p));
        let r = ev[i];
        assert(pairs[i] == path_pair(r));
        assert(ev.contains(r));
        lemma_retained_contains(rows, evicted(rows, keep), r);
        lemma_retained_contains(rows, survives(rows, keep), r);
    }
    if exists|r: RowView| #![trigger rows.contains(r), retained(rows, survives(rows, keep)).contains(r)]
        rows.contains(r) && !retained(rows, survives(rows, keep)).contains(r) && (r.image_path == Some(p) || r.thumbnail_path == Some(p)) {
        let r = choose|r: RowView| #![trigger rows.contains(r), retained(rows, survives(rows, keep)).contains(r)]
            rows.contains(r) && !retained(rows, survives(rows, keep)).contains(r) && (r.image_path == Some(p) || r.thumbnail_path == Some(p));
        lemma_retained_contains(rows, survives(rows, keep), r);
        lemma_retained_contains(rows, evicted(rows, keep), r);
        let i = choose|i: int| 0 <= i < ev.len() && ev[i] == r;
        assert(pairs[i] == path_pair(r));
    }
}

/// A list searches for the keyword that the filter holds, character for
/// character, and for none when the filter holds none.
pub proof fn law_filter_keyword_is_the_given_text(filter: ListFilter)
    ensures
        filter.keyword matches Some(k) ==> keyword_view(filter) == Some(k@),
        filter.keyword is None ==> keyword_view(filter) is None,
{
}

} // verus!
