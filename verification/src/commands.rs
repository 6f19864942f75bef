//! The history commands that the front end invokes: list, favourite, delete,
//! and the content lookup behind paste and copy.

use vstd::prelude::*;

use crate::clipboard_store::{
    self as store, content_of, has_id, id_index, list_rows, preview, row_files, ClipContent,
    ClipboardItem, ClipboardKind, ListCursor, ListFilter, Removed, RowView,
};
use crate::error::AppError;
use crate::state::AppState;

verus! {

/// Page size when none is given.
pub const DEFAULT_LIMIT: i64 = 50;

/// Largest page size.
pub const MAX_LIMIT: i64 = 1000;

/// The page size used for a requested one: the default when none is given,
/// clamped to `1..=1000`.
pub open spec fn page_limit(limit: Option<i64>) -> i64 {
    let l = match limit {
        Some(l) => l,
        None => DEFAULT_LIMIT,
    };
    if l < 1 {
        1
    } else if l > MAX_LIMIT {
        MAX_LIMIT
    } else {
        l
    }
}

/// Lists history entries most recently used first, in preview form. `query`
/// is a keyword matched in texts, `kind` restricts the kind, `favorite_only`
/// keeps favourites only; they combine. `cursor` is the keyset cursor of the
/// previous page's last entry; without it the first page is returned.
pub fn list_clipboard_items(
    state: &AppState,
    query: Option<String>,
    kind: Option<ClipboardKind>,
    favorite_only: Option<bool>,
    limit: Option<i64>,
    cursor: Option<ListCursor>,
) -> (r: Vec<ClipboardItem>)
    requires
        state.wf(),
    ensures
        ({
            let favorites = match favorite_only {
                Some(b) => b,
                None => false,
            };
            let rows = list_rows(state.db@, query.deep_view(), kind, favorites, page_limit(limit), cursor);
            &&& r@.len() == rows.len()
            &&& forall|j: int| 0 <= j < r@.len() ==> (#[trigger] r@[j])@ == preview(rows[j])
        }),
{
    let l = match limit {
        Some(l) => l,
        None => DEFAULT_LIMIT,
    };
    let l = if l < 1 {
        1
    } else if l > MAX_LIMIT {
        MAX_LIMIT
    } else {
        l
    };
    let keyword = match &query {
        Some(q) => Some(q.as_str()),
        None => None,
    };
    let favorites = match favorite_only {
        Some(b) => b,
        None => false,
    };
    let filter = ListFilter { keyword, kind, favorite_only: favorites };
    assert(store::keyword_view(filter) == query.deep_view());
    store::list(&state.db, filter, l, cursor)
}

/// Sets whether an entry is a favourite; favourites are never pruned. Fails
/// with `ItemNotFound` exactly when no entry has the id.
pub fn set_clipboard_favorite(state: &mut AppState, id: i64, favorite: bool) -> (r: Result<(), AppError>)
    requires
        old(state).wf(),
    ensures
        final(state).wf(),
        final(state).image_dir == old(state).image_dir,
        final(state).paste_target == old(state).paste_target,
        final(state).pending() == old(state).pending(),
        final(state).db.next_id() == old(state).db.next_id(),
        r is Err <==> !has_id(old(state).db@, id),
        r matches Err(e) ==> e is ItemNotFound && final(state).db@ == old(state).db@,
        r is Ok ==> final(state).db@ == old(state).db@.update(
            id_index(old(state).db@, id),
            RowView { favorite, ..old(state).db@[id_index(old(state).db@, id)] },
        ),
{
    if !store::set_favorite(&mut state.db, id, favorite) {
        return Err(AppError::ItemNotFound);
    }
    Ok(())
}

/// Deletes an entry and returns the files it leaves behind (the original and
/// thumbnail of an image entry) for the caller to remove from disk. Fails
/// with `ItemNotFound` exactly when no entry has the id.
pub fn delete_clipboard_item(state: &mut AppState, id: i64) -> (r: Result<Removed, AppError>)
    requires
        old(state).wf(),
    ensures
        final(state).wf(),
        final(state).image_dir == old(state).image_dir,
        final(state).paste_target == old(state).paste_target,
        final(state).pending() == old(state).pending(),
        final(state).db.next_id() == old(state).db.next_id(),
        r is Err <==> !has_id(old(state).db@, id),
        match r {
            Ok(removed) => {
                let i = id_index(old(state).db@, id);
                &&& final(state).db@ == old(state).db@.remove(i)
                &&& removed.image_files.deep_view() == row_files(old(state).db@[i])
            },
            Err(e) => e is ItemNotFound && final(state).db@ == old(state).db@,
        },
{
    match store::delete(&mut state.db, id) {
        Some(removed) => Ok(removed),
        None => Err(AppError::ItemNotFound),
    }
}

/// The content that paste and copy write back for an entry. Fails with
/// `ItemNotFound` when no entry has the id, and with `UnsupportedKind` when
/// its kind cannot be written back (files).
pub fn get_content(state: &AppState, id: i64) -> (r: Result<ClipContent, AppError>)
    requires
        state.wf(),
    ensures
        match r {
            Ok(c) => has_id(state.db@, id) && content_of(state.db@[id_index(state.db@, id)]) == Some(c@),
            Err(e) => if has_id(state.db@, id) {
                e is UnsupportedKind && content_of(state.db@[id_index(state.db@, id)]) is None
            } else {
                e is ItemNotFound
            },
        },
{
    match store::content(&state.db, id) {
        None => Err(AppError::ItemNotFound),
        Some(None) => Err(AppError::UnsupportedKind),
        Some(Some(c)) => Ok(c),
    }
}

/// A page is never empty nor larger than [`MAX_LIMIT`]: no size asks for
/// [`DEFAULT_LIMIT`], a size from 1 to [`MAX_LIMIT`] is used as given, a
/// smaller one gives 1 and a larger one [`MAX_LIMIT`].
pub proof fn law_page_size_is_clamped(limit: Option<i64>)
    ensures
        1 <= page_limit(limit) <= MAX_LIMIT,
        limit is None ==> page_limit(limit) == DEFAULT_LIMIT,
        limit matches Some(l) ==> (1 <= l <= MAX_LIMIT ==> page_limit(limit) == l),
        limit matches Some(l) ==> (l < 1 ==> page_limit(limit) == 1),
        limit matches Some(l) ==> (l > MAX_LIMIT ==> page_limit(limit) == MAX_LIMIT),
{
}

} // verus!
