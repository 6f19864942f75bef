//! The clipboard history table and its queries.
//!
//! The table is a sequence of rows in insertion (id) order. Lists and event
//! payloads use the preview projection: the text is cut to
//! [`PREVIEW_MAX_CHARS`] characters and carries the character count of the
//! full text; the full text is read back by id with [`content`]. Image bytes live on disk,
//! the table only keeps their paths; deleting operations hand the paths of the
//! deleted image rows back in a [`Removed`] so that the caller can clean the
//! disk.
//!
//! Time stamps are epoch milliseconds. Each mutating query has an `_at`
//! variant that takes the time stamp as an argument and a variant without the
//! suffix that reads the clock.

use vstd::prelude::*;
use vstd::string::*;
use vstd::utf8::encode_utf8;

use crate::digest::{blake3_hex, blake3_hex_of, is_lower_hex};
use crate::error::AppError;
use crate::selection::{
    below, best, bound_after, distinct_ids, lemma_top_limit, lemma_top_step, limit_count,
    limit_nat, newer, top,
};
use crate::text::{
    chars_of, contains_ignore_ascii_case, contains_ignore_ascii_case_exec, trim_seq,
    trimmed_chars,
};

verus! {

/// History capacity: beyond it the oldest non-favourite entries are pruned.
pub const MAX_HISTORY_ITEMS: i64 = 500;

/// Largest text (in UTF-8 bytes) that is recorded; larger texts are skipped.
pub const MAX_TEXT_BYTES: usize = 10 * 1024 * 1024;

/// Longest text preview (in characters) handed out by lists and events.
pub const PREVIEW_MAX_CHARS: i64 = 5000;

/// The kind of a clipboard entry.
#[derive(Clone, Copy, PartialEq, Eq, Structural, Debug)]
pub enum ClipboardKind {
    /// Plain text.
    Text,
    /// An image: the original and its thumbnail are on disk, the row holds their paths.
    Image,
    /// A list of file or folder paths.
    Files,
}

/// A row of the history table, as the contracts see it.
pub struct RowView {
    pub id: i64,
    pub kind: ClipboardKind,
    pub text: Option<Seq<char>>,
    pub hash: Seq<char>,
    pub image_path: Option<Seq<char>>,
    pub thumbnail_path: Option<Seq<char>>,
    pub width: Option<i64>,
    pub height: Option<i64>,
    pub file_paths: Option<Seq<Seq<char>>>,
    pub favorite: bool,
    pub created_at: i64,
    pub last_used_at: i64,
}

/// A row of the history table.
#[derive(Debug)]
pub struct Row {
    /// Primary key; ids grow with every insertion and are never reused.
    pub id: i64,
    pub kind: ClipboardKind,
    /// [text] the full text.
    pub text_content: Option<String>,
    /// Deduplication key: two rows never share it.
    pub content_hash: String,
    /// [image] path of the original.
    pub image_path: Option<String>,
    /// [image] path of the thumbnail.
    pub thumbnail_path: Option<String>,
    /// [image] width in pixels.
    pub image_width: Option<i64>,
    /// [image] height in pixels.
    pub image_height: Option<i64>,
    /// [files] absolute paths.
    pub file_paths: Option<Vec<String>>,
    /// Favourites are never pruned.
    pub is_favorite: bool,
    /// First recorded (epoch milliseconds).
    pub created_at: i64,
    /// Last copied or used (epoch milliseconds).
    pub last_used_at: i64,
}

impl View for Row {
    type V = RowView;

    open spec fn view(&self) -> RowView {
        RowView {
            id: self.id,
            kind: self.kind,
            text: self.text_content.deep_view(),
            hash: self.content_hash@,
            image_path: self.image_path.deep_view(),
            thumbnail_path: self.thumbnail_path.deep_view(),
            width: self.image_width,
            height: self.image_height,
            file_paths: self.file_paths.deep_view(),
            favorite: self.is_favorite,
            created_at: self.created_at,
            last_used_at: self.last_used_at,
        }
    }
}

/// A history entry in preview form, as the contracts see it.
pub struct ItemView {
    pub id: i64,
    pub kind: ClipboardKind,
    pub text_preview: Option<Seq<char>>,
    pub text_length: Option<i64>,
    pub image_path: Option<Seq<char>>,
    pub thumbnail_path: Option<Seq<char>>,
    pub image_width: Option<i64>,
    pub image_height: Option<i64>,
    pub file_paths: Option<Seq<Seq<char>>>,
    pub is_favorite: bool,
    pub created_at: i64,
    pub last_used_at: i64,
}

/// A history entry in preview form (what lists and events carry). The three
/// kinds share one shape; a kind's own fields are set only for that kind.
#[derive(Debug)]
pub struct ClipboardItem {
    /// Primary key, handed back by paste, copy and delete.
    pub id: i64,
    pub kind: ClipboardKind,
    /// [text] the first [`PREVIEW_MAX_CHARS`] characters of the text.
    pub text_preview: Option<String>,
    /// [text] the character count of the full text.
    pub text_length: Option<i64>,
    /// [image] path of the original.
    pub image_path: Option<String>,
    /// [image] path of the thumbnail.
    pub thumbnail_path: Option<String>,
    /// [image] width in pixels.
    pub image_width: Option<i64>,
    /// [image] height in pixels.
    pub image_height: Option<i64>,
    /// [files] absolute paths.
    pub file_paths: Option<Vec<String>>,
    /// Favourites are never pruned.
    pub is_favorite: bool,
    /// First recorded (epoch milliseconds).
    pub created_at: i64,
    /// Last copied or used (epoch milliseconds).
    pub last_used_at: i64,
}

impl View for ClipboardItem {
    type V = ItemView;

    open spec fn view(&self) -> ItemView {
        ItemView {
            id: self.id,
            kind: self.kind,
            text_preview: self.text_preview.deep_view(),
            text_length: self.text_length,
            image_path: self.image_path.deep_view(),
            thumbnail_path: self.thumbnail_path.deep_view(),
            image_width: self.image_width,
            image_height: self.image_height,
            file_paths: self.file_paths.deep_view(),
            is_favorite: self.is_favorite,
            created_at: self.created_at,
            last_used_at: self.last_used_at,
        }
    }
}

/// Keyset cursor: the `(last_used_at, id)` of the last entry of the previous
/// page. It anchors on values, so insertions and deletions between two pages
/// neither skip nor repeat entries.
#[derive(Clone, Copy, Debug)]
pub struct ListCursor {
    /// The last entry's last-used time.
    pub last_used_at: i64,
    /// The last entry's id, which breaks ties between equal times.
    pub id: i64,
}

/// List filters besides paging; they combine with AND.
#[derive(Clone, Copy, Debug)]
pub struct ListFilter<'a> {
    /// Keyword matched as a substring of the text; `None` or blank does not filter.
    pub keyword: Option<&'a str>,
    /// Only entries of this kind; `None` does not filter.
    pub kind: Option<ClipboardKind>,
    /// Only favourites.
    pub favorite_only: bool,
}

impl<'a> Default for ListFilter<'a> {
    fn default() -> (r: Self)
        ensures
            r.keyword is None,
            r.kind is None,
            !r.favorite_only,
    {
        ListFilter { keyword: None, kind: None, favorite_only: false }
    }
}

/// The fields of an image row (its files are already on disk).
#[derive(Clone, Copy, Debug)]
pub struct ImageRow<'a> {
    /// Pixel hash, the deduplication key.
    pub hash: &'a str,
    /// Path of the original.
    pub image_path: &'a str,
    /// Path of the thumbnail.
    pub thumbnail_path: &'a str,
    /// Width in pixels.
    pub width: i64,
    /// Height in pixels.
    pub height: i64,
}

/// What can be written back to the clipboard for an entry.
#[derive(Debug, PartialEq, Eq)]
pub enum ClipContent {
    /// The full text.
    Text(String),
    /// An image: the path of the original on disk.
    Image { path: String },
}

/// [`ClipContent`] as the contracts see it.
pub enum ContentView {
    Text(Seq<char>),
    Image(Seq<char>),
}

impl View for ClipContent {
    type V = ContentView;

    open spec fn view(&self) -> ContentView {
        match self {
            ClipContent::Text(t) => ContentView::Text(t@),
            ClipContent::Image { path } => ContentView::Image(path@),
        }
    }
}

/// The disk files that a deletion leaves behind, for the caller to remove.
#[derive(Debug, PartialEq, Eq)]
pub struct Removed {
    /// Original and thumbnail paths of the deleted image rows (text rows add none).
    pub image_files: Vec<String>,
}

impl Default for Removed {
    fn default() -> (r: Self)
        ensures
            r.image_files@.len() == 0,
    {
        Removed { image_files: Vec::new() }
    }
}

/// The bound that a cursor sets.
pub open spec fn cursor_bound(cursor: Option<ListCursor>) -> Option<(i64, i64)> {
    match cursor {
        None => None,
        Some(c) => Some((c.last_used_at, c.id)),
    }
}

/// The keyword of a filter, as characters.
pub open spec fn keyword_view(filter: ListFilter) -> Option<Seq<char>> {
    match filter.keyword {
        Some(k) => Some(k@),
        None => None,
    }
}

/// The keyword that a filter applies: the trimmed keyword, unless blank.
pub open spec fn effective_keyword(keyword: Option<Seq<char>>) -> Option<Seq<char>> {
    match keyword {
        Some(k) => if trim_seq(k).len() > 0 { Some(trim_seq(k)) } else { None },
        None => None,
    }
}

/// Whether a row passes the filters: the keyword occurs in its text
/// (ignoring the case of ASCII letters only; rows without text never
/// match a keyword), its kind is the one asked for, it is a favourite if
/// only favourites are asked for.
pub open spec fn row_matches(r: RowView, keyword: Option<Seq<char>>, kind: Option<ClipboardKind>, favorite_only: bool) -> bool {
    &&& match keyword {
        Some(k) => match r.text {
            Some(t) => contains_ignore_ascii_case(t, k),
            None => false,
        },
        None => true,
    }
    &&& match kind {
        Some(k) => r.kind == k,
        None => true,
    }
    &&& (favorite_only ==> r.favorite)
}

/// The filters as a predicate on rows (`keyword` untrimmed, as given).
pub open spec fn matcher(keyword: Option<Seq<char>>, kind: Option<ClipboardKind>, favorite_only: bool) -> spec_fn(RowView) -> bool {
    |r: RowView| row_matches(r, effective_keyword(keyword), kind, favorite_only)
}

/// The rows that a list query returns, in list order.
pub open spec fn list_rows(
    rows: Seq<RowView>,
    keyword: Option<Seq<char>>,
    kind: Option<ClipboardKind>,
    favorite_only: bool,
    limit: i64,
    cursor: Option<ListCursor>,
) -> Seq<RowView> {
    top(rows, matcher(keyword, kind, favorite_only), cursor_bound(cursor), limit_nat(limit, rows.len()))
}

/// The preview of a text: its first [`PREVIEW_MAX_CHARS`] characters, or the
/// whole text where it is shorter.
pub open spec fn preview_text(t: Seq<char>) -> Seq<char> {
    if t.len() <= PREVIEW_MAX_CHARS {
        t
    } else {
        t.take(PREVIEW_MAX_CHARS as int)
    }
}

/// The preview projection of a row.
pub open spec fn preview(r: RowView) -> ItemView {
    ItemView {
        id: r.id,
        kind: r.kind,
        text_preview: match r.text {
            Some(t) => Some(preview_text(t)),
            None => None,
        },
        text_length: match r.text {
            Some(t) => Some(t.len() as i64),
            None => None,
        },
        image_path: r.image_path,
        thumbnail_path: r.thumbnail_path,
        image_width: r.width,
        image_height: r.height,
        file_paths: r.file_paths,
        is_favorite: r.favorite,
        created_at: r.created_at,
        last_used_at: r.last_used_at,
    }
}

// ---------------------------------------------------------------------------
// Executable helpers.
// ---------------------------------------------------------------------------

fn clone_opt_string(s: &Option<String>) -> (r: Option<String>)
    ensures
        r.deep_view() == s.deep_view(),
{
    match s {
        Some(x) => Some(x.clone()),
        None => None,
    }
}

fn clone_strings(v: &Vec<String>) -> (r: Vec<String>)
    ensures
        r.deep_view() == v.deep_view(),
{
    let mut r: Vec<String> = Vec::new();
    for i in 0..v.len()
        invariant
            r@.len() == i,
            forall|j: int| 0 <= j < i ==> #[trigger] r@[j]@ == v@[j]@,
    {
        r.push(v[i].clone());
    }
    assert(r.deep_view() =~= v.deep_view());
    r
}

fn clone_opt_strings(v: &Option<Vec<String>>) -> (r: Option<Vec<String>>)
    ensures
        r.deep_view() == v.deep_view(),
{
    match v {
        Some(x) => Some(clone_strings(x)),
        None => None,
    }
}

fn preview_of(row: &Row) -> (item: ClipboardItem)
    ensures
        item@ == preview(row@),
{
    let (text_preview, text_length) = match &row.text_content {
        Some(t) => {
            let len = t.as_str().unicode_len();
            let k: usize = if len <= 5000 { len } else { 5000 };
            let p = t.as_str().substring_char(0, k).to_owned();
            assert(p@ =~= preview_text(t@));
            (Some(p), Some(len as i64))
        },
        None => (None, None),
    };
    ClipboardItem {
        id: row.id,
        kind: row.kind,
        text_preview,
        text_length,
        image_path: clone_opt_string(&row.image_path),
        thumbnail_path: clone_opt_string(&row.thumbnail_path),
        image_width: row.image_width,
        image_height: row.image_height,
        file_paths: clone_opt_strings(&row.file_paths),
        is_favorite: row.is_favorite,
        created_at: row.created_at,
        last_used_at: row.last_used_at,
    }
}

fn below_exec(row: &Row, bound: Option<(i64, i64)>) -> (r: bool)
    ensures
        r == below(row@, bound),
{
    match bound {
        None => true,
        Some((t, id)) => row.last_used_at < t || (row.last_used_at == t && row.id < id),
    }
}

fn newer_exec(a: &Row, b: &Row) -> (r: bool)
    ensures
        r == newer(a@, b@),
{
    a.last_used_at > b.last_used_at || (a.last_used_at == b.last_used_at && a.id > b.id)
}

/// The first row in list order among those marked in `ok` that lie after `bound`.
fn best_index(rows: &Vec<Row>, ok: &Vec<bool>, Ghost(pred): Ghost<spec_fn(RowView) -> bool>, bound: Option<(i64, i64)>) -> (r: Option<usize>)
    requires
        ok@.len() == rows@.len(),
        forall|i: int| 0 <= i < rows@.len() ==> ok@[i] == pred(#[trigger] rows@[i]@),
    ensures
        match r {
            Some(i) => i < rows@.len() && best(view_rows(rows@), pred, bound) == Some(i as int),
            None => best(view_rows(rows@), pred, bound) is None,
        },
{
    let ghost vr = view_rows(rows@);
    let n = rows.len();
    let mut cur: Option<usize> = None;
    for i in 0..n
        invariant
            n == rows@.len(),
            vr == view_rows(rows@),
            ok@.len() == rows@.len(),
            forall|j: int| 0 <= j < rows@.len() ==> ok@[j] == pred(#[trigger] rows@[j]@),
            match cur {
                Some(c) => c < i && best(vr.take(i as int), pred, bound) == Some(c as int),
                None => best(vr.take(i as int), pred, bound) is None,
            },
    {
        assert(vr.take(i as int + 1).drop_last() =~= vr.take(i as int));
        assert(vr.take(i as int + 1)[i as int] == rows@[i as int]@);
        let better = match cur {
            None => true,
            Some(c) => {
                assert(vr.take(i as int + 1)[c as int] == rows@[c as int]@);
                newer_exec(&rows[i], &rows[c])
            },
        };
        if ok[i] && below_exec(&rows[i], bound) && better {
            cur = Some(i);
        }
    }
    assert(vr.take(n as int) =~= vr);
    cur
}

/// The indices of the first `k` rows in list order among those marked in
/// `ok` that lie after `bound`.
fn select_top(rows: &Vec<Row>, ok: &Vec<bool>, Ghost(pred): Ghost<spec_fn(RowView) -> bool>, bound: Option<(i64, i64)>, k: usize) -> (idx: Vec<usize>)
    requires
        ok@.len() == rows@.len(),
        forall|i: int| 0 <= i < rows@.len() ==> ok@[i] == pred(#[trigger] rows@[i]@),
    ensures
        idx@.len() == top(view_rows(rows@), pred, bound, k as nat).len(),
        forall|j: int| 0 <= j < idx@.len() ==> (#[trigger] idx@[j]) < rows@.len()
            && rows@[idx@[j] as int]@ == top(view_rows(rows@), pred, bound, k as nat)[j],
{
    let ghost vr = view_rows(rows@);
    let mut idx: Vec<usize> = Vec::new();
    let mut b = bound;
    let mut step: usize = 0;
    while step < k
        invariant
            step <= k,
            vr == view_rows(rows@),
            ok@.len() == rows@.len(),
            forall|i: int| 0 <= i < rows@.len() ==> ok@[i] == pred(#[trigger] rows@[i]@),
            b == bound_after(vr, pred, bound, step as nat),
            idx@.len() == top(vr, pred, bound, step as nat).len(),
            forall|j: int| 0 <= j < idx@.len() ==> (#[trigger] idx@[j]) < rows@.len()
                && rows@[idx@[j] as int]@ == top(vr, pred, bound, step as nat)[j],
        decreases k - step,
    {
        proof {
            lemma_top_step(vr, pred, bound, step as nat);
        }
        let ghost old_idx = idx@;
        match best_index(rows, ok, Ghost(pred), b) {
            Some(i) => {
                idx.push(i);
                b = Some((rows[i].last_used_at, rows[i].id));
            },
            None => {},
        }
        assert forall|j: int| 0 <= j < idx@.len() implies (#[trigger] idx@[j]) < rows@.len()
            && rows@[idx@[j] as int]@ == top(vr, pred, bound, step as nat + 1)[j] by {
            if j < old_idx.len() {
                assert(idx@[j] == old_idx[j]);
            }
        }
        step = step + 1;
    }
    idx
}

// ---------------------------------------------------------------------------
// The table.
// ---------------------------------------------------------------------------

/// The rows' views.
pub open spec fn view_rows(rows: Seq<Row>) -> Seq<RowView> {
    Seq::new(rows.len(), |i: int| rows[i]@)
}

/// Validity of a table: ids strictly increase along the rows and stay below
/// the next id to hand out, and no two rows share a content hash.
pub open spec fn valid_rows(rows: Seq<RowView>, next_id: i64) -> bool {
    &&& forall|i: int, j: int| 0 <= i < j < rows.len() ==> rows[i].id < rows[j].id
    &&& forall|i: int| 0 <= i < rows.len() ==> (#[trigger] rows[i]).id < next_id
    &&& forall|i: int, j: int| 0 <= i < j < rows.len() ==> rows[i].hash != rows[j].hash
}

/// The clipboard history table.
pub struct ClipboardStore {
    rows: Vec<Row>,
    next_id: i64,
}

impl View for ClipboardStore {
    type V = Seq<RowView>;

    closed spec fn view(&self) -> Seq<RowView> {
        view_rows(self.rows@)
    }
}

impl ClipboardStore {
    /// The id that the next insertion receives.
    pub closed spec fn next_id(&self) -> i64 {
        self.next_id
    }

    /// The table is valid.
    pub open spec fn wf(&self) -> bool {
        valid_rows(self@, self.next_id())
    }

    /// An empty table whose first id is 1.
    pub fn new() -> (s: Self)
        ensures
            s.wf(),
            s@.len() == 0,
            s.next_id() == 1,
    {
        let s = ClipboardStore { rows: Vec::new(), next_id: 1 };
        assert(s@ =~= Seq::<RowView>::empty());
        s
    }

    /// A table holding `rows` (in the given order) whose next id is
    /// `next_id`, when they form a valid table; `None` otherwise.
    pub fn from_rows(rows: Vec<Row>, next_id: i64) -> (r: Option<Self>)
        ensures
            r is Some == valid_rows(view_rows(rows@), next_id),
            r matches Some(s) ==> s.wf() && s@ == view_rows(rows@) && s.next_id() == next_id,
    {
        let ghost v = view_rows(rows@);
        let n = rows.len();
        for i in 0..n
            invariant
                n == rows@.len(),
                v == view_rows(rows@),
                forall|a: int, b: int| 0 <= a < b < i ==> v[a].id < v[b].id,
                forall|a: int| 0 <= a < i ==> (#[trigger] v[a]).id < next_id,
                forall|a: int, b: int| 0 <= a < b < i ==> v[a].hash != v[b].hash,
        {
            if rows[i].id >= next_id {
                assert(!((v[i as int]).id < next_id));
                return None;
            }
            if i > 0 && rows[i - 1].id >= rows[i].id {
                assert(!(v[i - 1].id < v[i as int].id));
                return None;
            }
            for j in 0..i
                invariant
                    i < n,
                    n == rows@.len(),
                    v == view_rows(rows@),
                    forall|a: int| 0 <= a < j ==> v[a].hash != v[i as int].hash,
            {
                if rows[j].content_hash == rows[i].content_hash {
                    assert(v[j as int].hash == v[i as int].hash);
                    return None;
                }
            }
            assert forall|a: int, b: int| 0 <= a < b < i + 1 implies v[a].id < v[b].id by {
                if b == i && a < i - 1 {
                    assert(v[a].id < v[i - 1].id);
                }
            }
        }
        Some(ClipboardStore { rows, next_id })
    }

    /// The row with id `id`, if any.
    pub fn get(&self, id: i64) -> (r: Option<&Row>)
        requires
            self.wf(),
        ensures
            r is Some == has_id(self@, id),
            r matches Some(row) ==> row@ == self@[id_index(self@, id)],
    {
        match self.find_id(id) {
            Some(i) => {
                assert(self.rows@[i as int]@ == self@[i as int]);
                Some(&self.rows[i])
            },
            None => None,
        }
    }

}

/// The entries that match `filter`, in the order `last_used_at DESC, id DESC`,
/// at most `limit` of them (all of them when `limit` is negative), starting
/// strictly after `cursor` when there is one (keyset paging). The keyword is
/// trimmed; a blank keyword does not filter; it matches texts that contain it,
/// ignoring ASCII case, and never matches image or file entries.
pub fn list(store: &ClipboardStore, filter: ListFilter<'_>, limit: i64, cursor: Option<ListCursor>) -> (r: Vec<ClipboardItem>)
    requires
        store.wf(),
    ensures
        r@.len() == list_rows(store@, keyword_view(filter), filter.kind, filter.favorite_only, limit, cursor).len(),
        forall|j: int| 0 <= j < r@.len() ==> (#[trigger] r@[j])@ == preview(
            list_rows(store@, keyword_view(filter), filter.kind, filter.favorite_only, limit, cursor)[j],
        ),
{
    let keyword: Option<Vec<char>> = match filter.keyword {
        Some(k) => {
            let t = trimmed_chars(k);
            if t.len() > 0 {
                Some(t)
            } else {
                None
            }
        },
        None => None,
    };
    assert(keyword.deep_view() == effective_keyword(keyword_view(filter)));
    let ghost pred = matcher(keyword_view(filter), filter.kind, filter.favorite_only);
    let rows = &store.rows;
    let n = rows.len();
    let mut ok: Vec<bool> = Vec::new();
    for i in 0..n
        invariant
            n == rows@.len(),
            keyword.deep_view() == effective_keyword(keyword_view(filter)),
            pred == matcher(keyword_view(filter), filter.kind, filter.favorite_only),
            ok@.len() == i,
            forall|j: int| 0 <= j < i ==> ok@[j] == pred(#[trigger] rows@[j]@),
    {
        let row = &rows[i];
        let by_keyword = match &keyword {
            Some(k) => match &row.text_content {
                Some(t) => {
                    proof {
                        assert(k.deep_view() =~= k@);
                    }
                    let tc = chars_of(t.as_str());
                    contains_ignore_ascii_case_exec(&tc, k)
                },
                None => false,
            },
            None => true,
        };
        let by_kind = match filter.kind {
            Some(k) => row.kind == k,
            None => true,
        };
        let by_favorite = !filter.favorite_only || row.is_favorite;
        proof {
            assert(row@ == rows@[i as int]@);
            assert(by_keyword == match effective_keyword(keyword_view(filter)) {
                Some(kw) => match row@.text {
                    Some(t) => contains_ignore_ascii_case(t, kw),
                    None => false,
                },
                None => true,
            });
            assert(pred(row@) == row_matches(row@, effective_keyword(keyword_view(filter)), filter.kind, filter.favorite_only));
        }
        ok.push(by_keyword && by_kind && by_favorite);
    }
    let k: usize = if limit < 0 || limit as u64 >= n as u64 {
        n
    } else {
        limit as usize
    };
    let bound = match cursor {
        None => None,
        Some(c) => Some((c.last_used_at, c.id)),
    };
    let idx = select_top(rows, &ok, Ghost(pred), bound, k);
    proof {
        assert(distinct_ids(view_rows(rows@)));
        lemma_top_limit(view_rows(rows@), pred, bound, limit);
    }
    let mut out: Vec<ClipboardItem> = Vec::new();
    for j in 0..idx.len()
        invariant
            idx@.len() == top(view_rows(rows@), pred, bound, k as nat).len(),
            forall|q: int| 0 <= q < idx@.len() ==> (#[trigger] idx@[q]) < rows@.len()
                && rows@[idx@[q] as int]@ == top(view_rows(rows@), pred, bound, k as nat)[q],
            out@.len() == j,
            forall|q: int| 0 <= q < j ==> (#[trigger] out@[q])@ == preview(top(view_rows(rows@), pred, bound, k as nat)[q]),
    {
        out.push(preview_of(&rows[idx[j]]));
    }
    out
}

// ---------------------------------------------------------------------------
// Lookups and row updates.
// ---------------------------------------------------------------------------

/// Some row has content hash `h`.
pub open spec fn has_hash(rows: Seq<RowView>, h: Seq<char>) -> bool {
    exists|i: int| 0 <= i < rows.len() && (#[trigger] rows[i]).hash == h
}

/// The index of the row with content hash `h`.
pub open spec fn hash_index(rows: Seq<RowView>, h: Seq<char>) -> int {
    choose|i: int| 0 <= i < rows.len() && (#[trigger] rows[i]).hash == h
}

/// Some row has id `id`.
pub open spec fn has_id(rows: Seq<RowView>, id: i64) -> bool {
    exists|i: int| 0 <= i < rows.len() && (#[trigger] rows[i]).id == id
}

/// The index of the row with id `id`.
pub open spec fn id_index(rows: Seq<RowView>, id: i64) -> int {
    choose|i: int| 0 <= i < rows.len() && (#[trigger] rows[i]).id == id
}

/// `r` with its last-used time set to `now`.
pub open spec fn touched(r: RowView, now: i64) -> RowView {
    RowView { last_used_at: now, ..r }
}

/// The outcome of inserting `fresh` unless its content hash is already
/// present (`ON CONFLICT(content_hash) DO UPDATE SET last_used_at = now`):
/// the new rows, the next id, and the row that was inserted or touched.
pub open spec fn upserted(rows: Seq<RowView>, next_id: i64, fresh: RowView, now: i64) -> (Seq<RowView>, i64, RowView) {
    if has_hash(rows, fresh.hash) {
        let i = hash_index(rows, fresh.hash);
        (rows.update(i, touched(rows[i], now)), next_id, touched(rows[i], now))
    } else {
        let row = RowView { id: next_id, ..fresh };
        (rows.push(row), (next_id + 1) as i64, row)
    }
}

/// An insertion fails only when the content is new and no id is left.
pub open spec fn upsert_fails(rows: Seq<RowView>, next_id: i64, h: Seq<char>) -> bool {
    !has_hash(rows, h) && next_id == i64::MAX
}

/// What an insertion of `fresh` at `now` leaves: the new rows and next id,
/// and its result (the inserted or touched entry in preview form, or a
/// storage error when no id is left, with nothing changed).
pub open spec fn upsert_post(
    old_rows: Seq<RowView>,
    old_next: i64,
    fresh: RowView,
    now: i64,
    new_rows: Seq<RowView>,
    new_next: i64,
    r: Result<ClipboardItem, AppError>,
) -> bool {
    &&& (r is Err <==> upsert_fails(old_rows, old_next, fresh.hash))
    &&& match r {
        Ok(item) => {
            let u = upserted(old_rows, old_next, fresh, now);
            &&& new_rows == u.0
            &&& new_next == u.1
            &&& item@ == preview(u.2)
        },
        Err(e) => e is Database && new_rows == old_rows && new_next == old_next,
    }
}

/// What looking up content hash `hash` at `now` leaves: when a row has it,
/// that row touched and returned in preview form; otherwise no change.
pub open spec fn touch_by_hash_post(
    old_rows: Seq<RowView>,
    hash: Seq<char>,
    now: i64,
    new_rows: Seq<RowView>,
    r: Option<ClipboardItem>,
) -> bool {
    match r {
        Some(item) => {
            let i = hash_index(old_rows, hash);
            &&& has_hash(old_rows, hash)
            &&& new_rows == old_rows.update(i, touched(old_rows[i], now))
            &&& item@ == preview(touched(old_rows[i], now))
        },
        None => !has_hash(old_rows, hash) && new_rows == old_rows,
    }
}

/// What touching id `id` at `now` leaves.
pub open spec fn touch_post(old_rows: Seq<RowView>, id: i64, now: i64, new_rows: Seq<RowView>) -> bool {
    if has_id(old_rows, id) {
        new_rows == old_rows.update(id_index(old_rows, id), touched(old_rows[id_index(old_rows, id)], now))
    } else {
        new_rows == old_rows
    }
}

/// A new text row (its id is set on insertion).
pub open spec fn text_row(text: Seq<char>, hash: Seq<char>, now: i64) -> RowView {
    RowView {
        id: 0,
        kind: ClipboardKind::Text,
        text: Some(text),
        hash,
        image_path: None,
        thumbnail_path: None,
        width: None,
        height: None,
        file_paths: None,
        favorite: false,
        created_at: now,
        last_used_at: now,
    }
}

/// A new image row (its id is set on insertion).
pub open spec fn image_row(row: ImageRow, now: i64) -> RowView {
    RowView {
        id: 0,
        kind: ClipboardKind::Image,
        text: None,
        hash: row.hash@,
        image_path: Some(row.image_path@),
        thumbnail_path: Some(row.thumbnail_path@),
        width: Some(row.width),
        height: Some(row.height),
        file_paths: None,
        favorite: false,
        created_at: now,
        last_used_at: now,
    }
}

/// The files that deleting `r` leaves behind.
pub open spec fn row_files(r: RowView) -> Seq<Seq<char>> {
    opt_seq(r.image_path) + opt_seq(r.thumbnail_path)
}

/// The path as a sequence of zero or one paths.
pub open spec fn opt_seq(p: Option<Seq<char>>) -> Seq<Seq<char>> {
    match p {
        Some(x) => seq![x],
        None => seq![],
    }
}

/// The paths of a list of `(image_path, thumbnail_path)` pairs, in order,
/// without the absent ones.
pub open spec fn flatten_pairs(pairs: Seq<(Option<Seq<char>>, Option<Seq<char>>)>) -> Seq<Seq<char>>
    decreases pairs.len(),
{
    if pairs.len() == 0 {
        seq![]
    } else {
        flatten_pairs(pairs.drop_last()) + opt_seq(pairs.last().0) + opt_seq(pairs.last().1)
    }
}

/// What can be written back to the clipboard for a row: the text of a text
/// row, the original's path for an image row, nothing for a file row (or for
/// a row whose field is missing).
pub open spec fn content_of(r: RowView) -> Option<ContentView> {
    match r.kind {
        ClipboardKind::Text => match r.text {
            Some(t) => Some(ContentView::Text(t)),
            None => None,
        },
        ClipboardKind::Image => match r.image_path {
            Some(p) => Some(ContentView::Image(p)),
            None => None,
        },
        ClipboardKind::Files => None,
    }
}

impl Removed {
    /// Collects the present paths of `(image_path, thumbnail_path)` pairs, in order.
    pub fn from_rows(rows: Vec<(Option<String>, Option<String>)>) -> (r: Removed)
        ensures
            r.image_files.deep_view() == flatten_pairs(rows.deep_view()),
    {
        let mut files: Vec<String> = Vec::new();
        let ghost pairs = rows.deep_view();
        for pair in it: rows
            invariant
                it.seq() == rows@,
                pairs == rows.deep_view(),
                files.deep_view() == flatten_pairs(pairs.take(it.index())),
        {
            let ghost before = files.deep_view();
            let ghost i = it.index();
            proof {
                assert(pairs.take(i + 1).drop_last() =~= pairs.take(i));
                assert(pairs.take(i + 1).last() == pair.deep_view());
            }
            let (image, thumb) = pair;
            match image {
                Some(p) => files.push(p),
                None => {},
            }
            match thumb {
                Some(p) => files.push(p),
                None => {},
            }
            assert(files.deep_view() =~= flatten_pairs(pairs.take(i + 1)));
        }
        assert(pairs.take(pairs.len() as int) =~= pairs);
        Removed { image_files: files }
    }
}

impl ClipboardStore {
    /// The index of the row whose content hash is `h`.
    fn find_hash(&self, h: &String) -> (r: Option<usize>)
        requires
            self.wf(),
        ensures
            match r {
                Some(i) => i < self@.len() && has_hash(self@, h@) && hash_index(self@, h@) == i,
                None => !has_hash(self@, h@),
            },
    {
        let n = self.rows.len();
        for i in 0..n
            invariant
                n == self.rows@.len(),
                self.wf(),
                forall|j: int| 0 <= j < i ==> (#[trigger] self@[j]).hash != h@,
        {
            if self.rows[i].content_hash == *h {
                assert(self@[i as int].hash == h@);
                assert(has_hash(self@, h@));
                let ghost j = hash_index(self@, h@);
                assert(0 <= j < self@.len() && self@[j].hash == h@);
                assert(j == i) by {
                    if j < i {
                        assert(self@[j].hash != self@[i as int].hash);
                    } else if j > i {
                        assert(self@[i as int].hash != self@[j].hash);
                    }
                }
                return Some(i);
            }
        }
        None
    }

    /// The index of the row whose id is `id`.
    fn find_id(&self, id: i64) -> (r: Option<usize>)
        requires
            self.wf(),
        ensures
            match r {
                Some(i) => i < self@.len() && has_id(self@, id) && id_index(self@, id) == i,
                None => !has_id(self@, id),
            },
    {
        let n = self.rows.len();
        for i in 0..n
            invariant
                n == self.rows@.len(),
                self.wf(),
                forall|j: int| 0 <= j < i ==> (#[trigger] self@[j]).id != id,
        {
            if self.rows[i].id == id {
                assert(self@[i as int].id == id);
                assert(has_id(self@, id));
                let ghost j = id_index(self@, id);
                assert(0 <= j < self@.len() && self@[j].id == id);
                assert(j == i) by {
                    if j < i {
                        assert(self@[j].id < self@[i as int].id);
                    } else if j > i {
                        assert(self@[i as int].id < self@[j].id);
                    }
                }
                return Some(i);
            }
        }
        None
    }

    /// Sets the last-used time of the row at index `i`.
    fn touch_index(&mut self, i: usize, now: i64)
        requires
            old(self).wf(),
            i < old(self)@.len(),
        ensures
            final(self).wf(),
            final(self)@ == old(self)@.update(i as int, touched(old(self)@[i as int], now)),
            final(self).next_id() == old(self).next_id(),
    {
        let mut row = self.rows.remove(i);
        row.last_used_at = now;
        self.rows.insert(i, row);
        assert(self@ =~= old(self)@.update(i as int, touched(old(self)@[i as int], now)));
    }

    /// Inserts `row` under the next id unless a row with its content hash
    /// exists, in which case only that row's last-used time is set. Returns
    /// the index of the inserted or touched row.
    fn upsert_row(&mut self, row: Row, now: i64) -> (r: Result<usize, AppError>)
        requires
            old(self).wf(),
        ensures
            final(self).wf(),
            match r {
                Ok(i) => {
                    let u = upserted(old(self)@, old(self).next_id(), row@, now);
                    &&& final(self)@ == u.0
                    &&& final(self).next_id() == u.1
                    &&& i < final(self)@.len()
                    &&& final(self)@[i as int] == u.2
                },
                Err(e) => {
                    &&& e is Database
                    &&& final(self)@ == old(self)@
                    &&& final(self).next_id() == old(self).next_id()
                },
            },
            r is Err <==> upsert_fails(old(self)@, old(self).next_id(), row@.hash),
    {
        match self.find_hash(&row.content_hash) {
            Some(i) => {
                self.touch_index(i, now);
                Ok(i)
            },
            None => {
                if self.next_id == i64::MAX {
                    return Err(AppError::Database(String::from_str("no row id is left")));
                }
                let mut row = row;
                row.id = self.next_id;
                let ghost fresh = row@;
                self.rows.push(row);
                self.next_id = self.next_id + 1;
                assert(self@ =~= old(self)@.push(fresh));
                assert forall|a: int, b: int| 0 <= a < b < self@.len() implies self@[a].hash != self@[b].hash by {
                    if b == self@.len() - 1 {
                        assert(old(self)@[a].hash != fresh.hash);
                    }
                }
                Ok(self.rows.len() - 1)
            },
        }
    }
}

/// Records a text copied at `now`. A text whose hash is already recorded is
/// not inserted again: that entry's last-used time is set to `now` instead.
/// Returns the entry in preview form.
pub fn upsert_text_at(store: &mut ClipboardStore, text: &str, content_hash: &str, now: i64) -> (r: Result<ClipboardItem, AppError>)
    requires
        old(store).wf(),
    ensures
        final(store).wf(),
        upsert_post(old(store)@, old(store).next_id(), text_row(text@, content_hash@, now), now, final(store)@, final(store).next_id(), r),
{
    let row = Row {
        id: 0,
        kind: ClipboardKind::Text,
        text_content: Some(text.to_owned()),
        content_hash: content_hash.to_owned(),
        image_path: None,
        thumbnail_path: None,
        image_width: None,
        image_height: None,
        file_paths: None,
        is_favorite: false,
        created_at: now,
        last_used_at: now,
    };
    assert(row@ == text_row(text@, content_hash@, now));
    let i = store.upsert_row(row, now)?;
    assert(store.rows@[i as int]@ == store@[i as int]);
    Ok(preview_of(&store.rows[i]))
}

/// Records an image whose files are on disk, at `now`. An image whose hash is
/// already recorded is not inserted again: that entry's last-used time is
/// set to `now` instead. Returns the entry in preview form.
pub fn insert_image_at(store: &mut ClipboardStore, row: ImageRow<'_>, now: i64) -> (r: Result<ClipboardItem, AppError>)
    requires
        old(store).wf(),
    ensures
        final(store).wf(),
        upsert_post(old(store)@, old(store).next_id(), image_row(row, now), now, final(store)@, final(store).next_id(), r),
{
    let fresh = Row {
        id: 0,
        kind: ClipboardKind::Image,
        text_content: None,
        content_hash: row.hash.to_owned(),
        image_path: Some(row.image_path.to_owned()),
        thumbnail_path: Some(row.thumbnail_path.to_owned()),
        image_width: Some(row.width),
        image_height: Some(row.height),
        file_paths: None,
        is_favorite: false,
        created_at: now,
        last_used_at: now,
    };
    assert(fresh@ == image_row(row, now));
    let i = store.upsert_row(fresh, now)?;
    assert(store.rows@[i as int]@ == store@[i as int]);
    Ok(preview_of(&store.rows[i]))
}

/// Looks an entry up by content hash: when found, its last-used time is set
/// to `now` and it is returned in preview form; otherwise nothing changes.
pub fn touch_by_hash_at(store: &mut ClipboardStore, hash: &str, now: i64) -> (r: Option<ClipboardItem>)
    requires
        old(store).wf(),
    ensures
        final(store).wf(),
        final(store).next_id() == old(store).next_id(),
        touch_by_hash_post(old(store)@, hash@, now, final(store)@, r),
{
    let h = hash.to_owned();
    match store.find_hash(&h) {
        Some(i) => {
            store.touch_index(i, now);
            assert(store.rows@.len() == store@.len());
            assert(store.rows@[i as int]@ == store@[i as int]);
            Some(preview_of(&store.rows[i]))
        },
        None => None,
    }
}

/// Sets the last-used time of the entry with id `id` to `now`; no entry, no change.
pub fn touch_at(store: &mut ClipboardStore, id: i64, now: i64)
    requires
        old(store).wf(),
    ensures
        final(store).wf(),
        final(store).next_id() == old(store).next_id(),
        touch_post(old(store)@, id, now, final(store)@),
{
    match store.find_id(id) {
        Some(i) => store.touch_index(i, now),
        None => {},
    }
}

/// Calls `SystemTime::now` and `duration_since(UNIX_EPOCH)`: the current time
/// in epoch milliseconds, 0 when the clock is before the epoch. The contract
/// says nothing of the value, which is the machine's clock.
#[verifier::external_body]
pub(crate) fn now_ms() -> i64 {
    match std::time::SystemTime::now().duration_since(std::time::UNIX_EPOCH) {
        Ok(elapsed) => elapsed.as_millis() as i64,
        Err(_) => 0,
    }
}

/// [`upsert_text_at`] at the current time.
pub fn upsert_text(store: &mut ClipboardStore, text: &str, content_hash: &str) -> (r: Result<ClipboardItem, AppError>)
    requires
        old(store).wf(),
    ensures
        final(store).wf(),
        exists|now: i64| upsert_post(old(store)@, old(store).next_id(), text_row(text@, content_hash@, now), now, final(store)@, final(store).next_id(), r),
{
    upsert_text_at(store, text, content_hash, now_ms())
}

/// [`insert_image_at`] at the current time.
pub fn insert_image(store: &mut ClipboardStore, row: ImageRow<'_>) -> (r: Result<ClipboardItem, AppError>)
    requires
        old(store).wf(),
    ensures
        final(store).wf(),
        exists|now: i64| upsert_post(old(store)@, old(store).next_id(), image_row(row, now), now, final(store)@, final(store).next_id(), r),
{
    insert_image_at(store, row, now_ms())
}

/// [`touch_by_hash_at`] at the current time.
pub fn touch_by_hash(store: &mut ClipboardStore, hash: &str) -> (r: Option<ClipboardItem>)
    requires
        old(store).wf(),
    ensures
        final(store).wf(),
        final(store).next_id() == old(store).next_id(),
        exists|now: i64| touch_by_hash_post(old(store)@, hash@, now, final(store)@, r),
{
    touch_by_hash_at(store, hash, now_ms())
}

/// [`touch_at`] at the current time.
pub fn touch(store: &mut ClipboardStore, id: i64)
    requires
        old(store).wf(),
    ensures
        final(store).wf(),
        final(store).next_id() == old(store).next_id(),
        exists|now: i64| touch_post(old(store)@, id, now, final(store)@),
{
    touch_at(store, id, now_ms())
}

/// The deduplication key of a text: the BLAKE3 digest of its UTF-8 bytes, in hex.
pub open spec fn text_hash(text: Seq<char>) -> Seq<char> {
    blake3_hex(encode_utf8(text))
}

/// The deduplication key of a text (BLAKE3 of its UTF-8 bytes, in hex).
pub fn hash_text(text: &str) -> (r: String)
    ensures
        r@ == text_hash(text@),
        r@ == blake3_hex(encode_utf8(text@)),
        r@.len() == 64,
        is_lower_hex(r@),
{
    blake3_hex_of(text.as_bytes())
}

/// Sets whether the entry with id `id` is a favourite; returns whether the
/// entry exists. Favourites are never pruned.
pub fn set_favorite(store: &mut ClipboardStore, id: i64, favorite: bool) -> (r: bool)
    requires
        old(store).wf(),
    ensures
        final(store).wf(),
        final(store).next_id() == old(store).next_id(),
        r == has_id(old(store)@, id),
        r ==> final(store)@ == old(store)@.update(
            id_index(old(store)@, id),
            RowView { favorite, ..old(store)@[id_index(old(store)@, id)] },
        ),
        !r ==> final(store)@ == old(store)@,
{
    match store.find_id(id) {
        Some(i) => {
            let mut row = store.rows.remove(i);
            row.is_favorite = favorite;
            store.rows.insert(i, row);
            assert(store@ =~= old(store)@.update(i as int, RowView { favorite, ..old(store)@[i as int] }));
            true
        },
        None => false,
    }
}

/// Deletes the entry with id `id`. `None` when there is none; otherwise the
/// paths of its original and thumbnail (none for a text entry).
pub fn delete(store: &mut ClipboardStore, id: i64) -> (r: Option<Removed>)
    requires
        old(store).wf(),
    ensures
        final(store).wf(),
        final(store).next_id() == old(store).next_id(),
        r is Some == has_id(old(store)@, id),
        match r {
            Some(removed) => {
                let i = id_index(old(store)@, id);
                &&& final(store)@ == old(store)@.remove(i)
                &&& removed.image_files.deep_view() == row_files(old(store)@[i])
            },
            None => final(store)@ == old(store)@,
        },
{
    match store.find_id(id) {
        Some(i) => {
            let row = store.rows.remove(i);
            assert(store@ =~= old(store)@.remove(i as int));
            let mut pairs: Vec<(Option<String>, Option<String>)> = Vec::new();
            pairs.push((row.image_path, row.thumbnail_path));
            let removed = Removed::from_rows(pairs);
            proof {
                let p = pairs.deep_view();
                assert(p.len() == 1);
                assert(p.drop_last() =~= Seq::<(Option<Seq<char>>, Option<Seq<char>>)>::empty());
                assert(flatten_pairs(p.drop_last()) =~= Seq::<Seq<char>>::empty());
                assert(removed.image_files.deep_view() =~= row_files(old(store)@[i as int]));
            }
            Some(removed)
        },
        None => None,
    }
}

/// What can be written back to the clipboard for the entry with id `id`:
/// `None` when there is no such entry, `Some(None)` when its kind cannot be
/// written back (files).
pub fn content(store: &ClipboardStore, id: i64) -> (r: Option<Option<ClipContent>>)
    requires
        store.wf(),
    ensures
        r is Some == has_id(store@, id),
        match r {
            Some(c) => {
                let want = content_of(store@[id_index(store@, id)]);
                &&& c is Some == want is Some
                &&& c is Some ==> c->0@ == want->0
            },
            None => true,
        },
{
    match store.find_id(id) {
        Some(i) => {
            let row = &store.rows[i];
            let c = match row.kind {
                ClipboardKind::Text => match &row.text_content {
                    Some(t) => Some(ClipContent::Text(t.clone())),
                    None => None,
                },
                ClipboardKind::Image => match &row.image_path {
                    Some(p) => Some(ClipContent::Image { path: p.clone() }),
                    None => None,
                },
                ClipboardKind::Files => None,
            };
            Some(c)
        },
        None => None,
    }
}


// ---------------------------------------------------------------------------
// Capacity pruning.
// ---------------------------------------------------------------------------

/// The rows of `rows` that satisfy `pred`, in order.
pub open spec fn retained(rows: Seq<RowView>, pred: spec_fn(RowView) -> bool) -> Seq<RowView>
    decreases rows.len(),
{
    if rows.len() == 0 {
        seq![]
    } else if pred(rows.last()) {
        retained(rows.drop_last(), pred).push(rows.last())
    } else {
        retained(rows.drop_last(), pred)
    }
}

/// The predicate of non-favourite rows.
pub open spec fn non_favorite() -> spec_fn(RowView) -> bool {
    |r: RowView| !r.favorite
}

/// The non-favourite rows that pruning to `keep` keeps: the `keep` newest
/// in list order (all of them when `keep` is negative).
pub open spec fn prune_kept(rows: Seq<RowView>, keep: i64) -> Seq<RowView> {
    top(rows, non_favorite(), None, limit_nat(keep, rows.len()))
}

/// Whether a row survives pruning to `keep`: favourites always do, other rows
/// when they are among the kept ones.
pub open spec fn survives(rows: Seq<RowView>, keep: i64) -> spec_fn(RowView) -> bool {
    |r: RowView| r.favorite || exists|j: int| 0 <= j < prune_kept(rows, keep).len() && (#[trigger] prune_kept(rows, keep)[j]).id == r.id
}

/// Whether a row is deleted by pruning to `keep`.
pub open spec fn evicted(rows: Seq<RowView>, keep: i64) -> spec_fn(RowView) -> bool {
    |r: RowView| !survives(rows, keep)(r)
}

/// The `(image_path, thumbnail_path)` pair of a row.
pub open spec fn path_pair(r: RowView) -> (Option<Seq<char>>, Option<Seq<char>>) {
    (r.image_path, r.thumbnail_path)
}

fn contains_id(ids: &Vec<i64>, id: i64) -> (r: bool)
    ensures
        r == exists|j: int| 0 <= j < ids@.len() && ids@[j] == id,
{
    for j in 0..ids.len()
        invariant
            forall|q: int| 0 <= q < j ==> ids@[q] != id,
    {
        if ids[j] == id {
            return true;
        }
    }
    false
}

/// Prunes to `keep`, as [`prune`] does, and also returns the ids of the
/// deleted rows in table order.
pub fn prune_rows(store: &mut ClipboardStore, keep: i64) -> (r: (Removed, Vec<i64>))
    requires
        old(store).wf(),
    ensures
        final(store).wf(),
        final(store).next_id() == old(store).next_id(),
        final(store)@ == retained(old(store)@, survives(old(store)@, keep)),
        r.0.image_files.deep_view() == flatten_pairs(
            retained(old(store)@, evicted(old(store)@, keep)).map_values(|x: RowView| path_pair(x)),
        ),
        r.1@ == retained(old(store)@, evicted(old(store)@, keep)).map_values(|x: RowView| x.id),
{
    let ghost vr = store@;
    let ghost kept = prune_kept(vr, keep);
    let n = store.rows.len();
    let mut ok: Vec<bool> = Vec::new();
    for i in 0..n
        invariant
            n == store.rows@.len(),
            ok@.len() == i,
            forall|j: int| 0 <= j < i ==> ok@[j] == non_favorite()(#[trigger] store.rows@[j]@),
    {
        ok.push(!store.rows[i].is_favorite);
    }
    let k: usize = if keep < 0 || keep as u64 >= n as u64 {
        n
    } else {
        keep as usize
    };
    assert(k as nat == limit_count(keep, vr.len()));
    let idx = select_top(&store.rows, &ok, Ghost(non_favorite()), None, k);
    proof {
        assert(distinct_ids(vr));
        lemma_top_limit(vr, non_favorite(), None, keep);
    }
    let mut kept_ids: Vec<i64> = Vec::new();
    for j in 0..idx.len()
        invariant
            vr == view_rows(store.rows@),
            kept == top(vr, non_favorite(), None, k as nat),
            idx@.len() == kept.len(),
            forall|q: int| 0 <= q < idx@.len() ==> (#[trigger] idx@[q]) < store.rows@.len()
                && store.rows@[idx@[q] as int]@ == kept[q],
            kept_ids@.len() == j,
            forall|q: int| 0 <= q < j ==> #[trigger] kept_ids@[q] == kept[q].id,
    {
        kept_ids.push(store.rows[idx[j]].id);
    }
    let ghost keep_pred = survives(vr, keep);
    let ghost drop_pred = evicted(vr, keep);
    let mut old_rows: Vec<Row> = Vec::new();
    std::mem::swap(&mut old_rows, &mut store.rows);
    assert(view_rows(old_rows@) == vr);
    let mut new_rows: Vec<Row> = Vec::new();
    let mut pairs: Vec<(Option<String>, Option<String>)> = Vec::new();
    let mut deleted: Vec<i64> = Vec::new();
    for row in it: old_rows
        invariant
            it.seq() == old_rows@,
            vr == view_rows(old_rows@),
            kept == prune_kept(vr, keep),
            kept_ids@.len() == kept.len(),
            forall|q: int| 0 <= q < kept_ids@.len() ==> #[trigger] kept_ids@[q] == kept[q].id,
            keep_pred == survives(vr, keep),
            drop_pred == evicted(vr, keep),
            view_rows(new_rows@) == retained(vr.take(it.index()), keep_pred),
            pairs.deep_view() == retained(vr.take(it.index()), drop_pred).map_values(|x: RowView| path_pair(x)),
            deleted@ == retained(vr.take(it.index()), drop_pred).map_values(|x: RowView| x.id),
    {
        let ghost i = it.index();
        let ghost rv = row@;
        proof {
            assert(vr.take(i + 1).drop_last() =~= vr.take(i));
            assert(vr.take(i + 1).last() == rv);
        }
        let in_kept = contains_id(&kept_ids, row.id);
        proof {
            if in_kept {
                let q = choose|q: int| 0 <= q < kept_ids@.len() && kept_ids@[q] == row.id;
                assert(kept[q].id == rv.id);
            }
            if exists|j: int| 0 <= j < kept.len() && (#[trigger] kept[j]).id == rv.id {
                let q = choose|q: int| 0 <= q < kept.len() && (#[trigger] kept[q]).id == rv.id;
                assert(kept_ids@[q] == rv.id);
            }
            assert(keep_pred(rv) == (row.is_favorite || in_kept));
            assert(drop_pred(rv) == !keep_pred(rv));
        }
        if row.is_favorite || in_kept {
            let ghost before = new_rows@;
            new_rows.push(row);
            assert(view_rows(new_rows@) =~= view_rows(before).push(rv));
            assert(retained(vr.take(i + 1), drop_pred) == retained(vr.take(i), drop_pred));
        } else {
            let ghost before_pairs = pairs.deep_view();
            let ghost before_deleted = deleted@;
            let rid = row.id;
            pairs.push((row.image_path, row.thumbnail_path));
            deleted.push(rid);
            assert(pairs.deep_view() =~= before_pairs.push(path_pair(rv)));
            assert(retained(vr.take(i + 1), drop_pred) == retained(vr.take(i), drop_pred).push(rv));
            assert(retained(vr.take(i), drop_pred).push(rv).map_values(|x: RowView| path_pair(x)) =~= retained(vr.take(i), drop_pred).map_values(|x: RowView| path_pair(x)).push(path_pair(rv)));
            assert(pairs.deep_view() =~= retained(vr.take(i + 1), drop_pred).map_values(|x: RowView| path_pair(x)));
            assert(deleted@ =~= retained(vr.take(i + 1), drop_pred).map_values(|x: RowView| x.id));
        }
    }
    assert(vr.take(vr.len() as int) =~= vr);
    store.rows = new_rows;
    proof {
        lemma_retained_valid(vr, keep_pred, store.next_id);
    }
    (Removed::from_rows(pairs), deleted)
}

pub(crate) proof fn lemma_retained_valid(rows: Seq<RowView>, pred: spec_fn(RowView) -> bool, next_id: i64)
    requires
        valid_rows(rows, next_id),
    ensures
        valid_rows(retained(rows, pred), next_id),
        forall|i: int| 0 <= i < retained(rows, pred).len() ==> exists|j: int| 0 <= j < rows.len() && rows[j] == #[trigger] retained(rows, pred)[i],
    decreases rows.len(),
{
    if rows.len() > 0 {
        let sub = rows.drop_last();
        assert(valid_rows(sub, next_id));
        lemma_retained_valid(sub, pred, next_id);
        let r = retained(rows, pred);
        let rs = retained(sub, pred);
        if pred(rows.last()) {
            assert forall|i: int| 0 <= i < r.len() implies exists|j: int| 0 <= j < rows.len() && rows[j] == #[trigger] r[i] by {
                if i < rs.len() {
                    let j = choose|j: int| 0 <= j < sub.len() && sub[j] == rs[i];
                    assert(rows[j] == r[i]);
                } else {
                    assert(rows[rows.len() - 1] == r[i]);
                }
            }
            assert forall|a: int, b: int| 0 <= a < b < r.len() implies r[a].id < r[b].id && r[a].hash != r[b].hash by {
                if b == r.len() - 1 {
                    let j = choose|j: int| 0 <= j < sub.len() && sub[j] == rs[a];
                    assert(rows[j] == r[a]);
                    assert(rows[rows.len() - 1] == r[b]);
                }
            }
        }
    }
}

/// Capacity pruning: keeps the `keep` newest non-favourite entries (all of
/// them when `keep` is negative) and every favourite, deletes the rest, and
/// returns the paths of the deleted image entries' files, in table order.
pub fn prune(store: &mut ClipboardStore, keep: i64) -> (r: Removed)
    requires
        old(store).wf(),
    ensures
        final(store).wf(),
        final(store).next_id() == old(store).next_id(),
        final(store)@ == retained(old(store)@, survives(old(store)@, keep)),
        r.image_files.deep_view() == flatten_pairs(
            retained(old(store)@, evicted(old(store)@, keep)).map_values(|x: RowView| path_pair(x)),
        ),
{
    prune_rows(store, keep).0
}



} // verus!
