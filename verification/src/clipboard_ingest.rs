//! The ingest decisions of the capture pipeline (monitor -> channel -> ingest
//! loop): which captures are recorded, and what recording them does to the
//! history. Texts go straight to the table; an image is first looked up by
//! its pixel hash, and only an unknown image is encoded and written to disk
//! (by the caller, with [`crate::image_store::prepare_save`]) and then
//! recorded with [`ingest_image_record`].

use vstd::prelude::*;
use vstd::utf8::encode_utf8;

use crate::clipboard_store::{
    has_hash, hash_index, ClipboardKind, image_row, insert_image, text_hash, text_row,
    touch_by_hash, touch_by_hash_post, upsert_post, upsert_text, upserted, ClipboardItem,
    ImageRow, MAX_TEXT_BYTES,
};
use crate::digest::blake3_hex;
use crate::error::AppError;
use crate::history_laws::law_upsert_same_content_keeps_one_entry;
use crate::image_store::{hash_image, image_hash, ImageData, StoredImage};
use crate::state::AppState;

verus! {

/// A text too large to record: its UTF-8 length (as `str::len` reports it)
/// is over [`MAX_TEXT_BYTES`].
pub open spec fn text_too_large(text: Seq<char>) -> bool {
    (encode_utf8(text).len() as usize) > MAX_TEXT_BYTES
}

/// What ingesting a text leaves: a text that is too large is skipped with no
/// change; a text whose hash is the self-write mark is skipped and consumes
/// the mark; any other text is recorded (at some time `now`) and returned in
/// preview form.
pub open spec fn ingest_text_post(old: AppState, new: AppState, text: Seq<char>, r: Result<Option<ClipboardItem>, AppError>) -> bool {
    &&& new.image_dir == old.image_dir
    &&& new.paste_target == old.paste_target
    &&& if text_too_large(text) {
        r == Ok::<Option<ClipboardItem>, AppError>(None) && new == old
    } else if old.pending() == Some(text_hash(text)) {
        r == Ok::<Option<ClipboardItem>, AppError>(None) && new.pending() is None && new.db == old.db
    } else {
        &&& new.pending() == old.pending()
        &&& r != Ok::<Option<ClipboardItem>, AppError>(None)
        &&& exists|now: i64, u: Result<ClipboardItem, AppError>| {
            &&& upsert_post(old.db@, old.db.next_id(), text_row(text, text_hash(text), now), now, new.db@, new.db.next_id(), u)
            &&& match u {
                Ok(item) => r == Ok::<Option<ClipboardItem>, AppError>(Some(item)),
                Err(e) => r == Err::<Option<ClipboardItem>, AppError>(e),
            }
        }
    }
}

/// Ingests a captured text: skips it when it is too large or is this
/// program's own write, records it otherwise.
pub fn ingest_text(state: &mut AppState, text: String) -> (r: Result<Option<ClipboardItem>, AppError>)
    requires
        old(state).wf(),
    ensures
        final(state).wf(),
        ingest_text_post(*old(state), *final(state), text@, r),
{
    if text.as_str().len() > MAX_TEXT_BYTES {
        return Ok(None);
    }
    let hash = crate::clipboard_store::hash_text(text.as_str());
    if state.take_self_write_if_matches(hash.as_str()) {
        return Ok(None);
    }
    let ghost before = *state;
    let u = upsert_text(&mut state.db, text.as_str(), hash.as_str());
    proof {
        let now = choose|now: i64| upsert_post(before.db@, before.db.next_id(), text_row(text@, text_hash(text@), now), now, state.db@, state.db.next_id(), u);
        assert(upsert_post(before.db@, before.db.next_id(), text_row(text@, text_hash(text@), now), now, state.db@, state.db.next_id(), u));
    }
    match u {
        Ok(item) => Ok(Some(item)),
        Err(e) => Err(e),
    }
}

/// The first step of ingesting a captured image.
#[derive(Debug)]
pub enum ImageIngest {
    /// The image is this program's own write: nothing to record.
    Skipped,
    /// The image was already recorded: its entry, now the most recent.
    Existing(ClipboardItem),
    /// The image is new: encode and store it under this hash, then record it.
    Store { hash: String },
}

/// Looks a captured image up: an image whose hash is the self-write mark is
/// skipped and consumes the mark; a known image is touched and returned; an
/// unknown one is to be stored. The hash takes the edges as `u32`.
pub fn ingest_image_begin(state: &mut AppState, image: &ImageData) -> (r: ImageIngest)
    requires
        old(state).wf(),
    ensures
        final(state).wf(),
        final(state).image_dir == old(state).image_dir,
        final(state).paste_target == old(state).paste_target,
        ({
            let h = image_hash(image.width as u32, image.height as u32, image.bytes@);
            if old(state).pending() == Some(h) {
                r is Skipped && final(state).pending() is None && final(state).db == old(state).db
            } else {
                &&& final(state).pending() == old(state).pending()
                &&& final(state).db.next_id() == old(state).db.next_id()
                &&& match r {
                    ImageIngest::Skipped => false,
                    ImageIngest::Existing(item) => exists|now: i64| touch_by_hash_post(old(state).db@, h, now, final(state).db@, Some(item)),
                    ImageIngest::Store { hash } => hash@ == h && touch_by_hash_post(old(state).db@, h, 0, final(state).db@, None),
                }
            }
        }),
{
    let hash = hash_image(image.width as u32, image.height as u32, image.bytes.as_slice());
    if state.take_self_write_if_matches(hash.as_str()) {
        return ImageIngest::Skipped;
    }
    match touch_by_hash(&mut state.db, hash.as_str()) {
        Some(item) => ImageIngest::Existing(item),
        None => ImageIngest::Store { hash },
    }
}

/// Records an image whose files were written to disk (see [`ImageIngest::Store`]).
pub fn ingest_image_record(state: &mut AppState, stored: &StoredImage) -> (r: Result<ClipboardItem, AppError>)
    requires
        old(state).wf(),
    ensures
        final(state).wf(),
        final(state).image_dir == old(state).image_dir,
        final(state).paste_target == old(state).paste_target,
        final(state).pending() == old(state).pending(),
        exists|now: i64, row: ImageRow|
            row.hash@ == stored.hash@ && row.image_path@ == stored.image_path@ && row.thumbnail_path@ == stored.thumbnail_path@
            && row.width == stored.width as i64 && row.height == stored.height as i64
            && upsert_post(old(state).db@, old(state).db.next_id(), image_row(row, now), now, final(state).db@, final(state).db.next_id(), r),
{
    let row = ImageRow {
        hash: stored.hash.as_str(),
        image_path: stored.image_path.as_str(),
        thumbnail_path: stored.thumbnail_path.as_str(),
        width: stored.width as i64,
        height: stored.height as i64,
    };
    insert_image(&mut state.db, row)
}


/// The program's own writes stay out of the history: with the self-write
/// mark set to a text's hash, ingesting that text records nothing and
/// consumes the mark.
pub proof fn law_own_text_write_is_not_recorded(old: AppState, new: AppState, text: Seq<char>, r: Result<Option<ClipboardItem>, AppError>)
    requires
        old.pending() == Some(text_hash(text)),
        ingest_text_post(old, new, text, r),
    ensures
        r == Ok::<Option<ClipboardItem>, AppError>(None),
        new.db == old.db,
        !text_too_large(text) ==> new.pending() is None,
{
}

/// Copying the same text twice records one entry: when both copies are
/// recorded, the second adds no row and returns the entry of the first.
pub proof fn law_same_text_twice_is_one_entry(
    s0: AppState,
    s1: AppState,
    s2: AppState,
    text: Seq<char>,
    r1: Result<Option<ClipboardItem>, AppError>,
    r2: Result<Option<ClipboardItem>, AppError>,
)
    requires
        s0.wf(),
        ingest_text_post(s0, s1, text, r1),
        ingest_text_post(s1, s2, text, r2),
        r1 matches Ok(Some(_)),
        r2 matches Ok(Some(_)),
    ensures
        s2.db@.len() == s1.db@.len(),
        r2->Ok_0->Some_0.id == r1->Ok_0->Some_0.id,
{
    let h = text_hash(text);
    let now1 = choose|now: i64, u: Result<ClipboardItem, AppError>| {
        &&& upsert_post(s0.db@, s0.db.next_id(), text_row(text, h, now), now, s1.db@, s1.db.next_id(), u)
        &&& match u {
            Ok(item) => r1 == Ok::<Option<ClipboardItem>, AppError>(Some(item)),
            Err(e) => r1 == Err::<Option<ClipboardItem>, AppError>(e),
        }
    };
    let (n1, u1) = now1;
    let (n2, u2) = choose|now: i64, u: Result<ClipboardItem, AppError>| {
        &&& upsert_post(s1.db@, s1.db.next_id(), text_row(text, h, now), now, s2.db@, s2.db.next_id(), u)
        &&& match u {
            Ok(item) => r2 == Ok::<Option<ClipboardItem>, AppError>(Some(item)),
            Err(e) => r2 == Err::<Option<ClipboardItem>, AppError>(e),
        }
    };
    assert(u1 is Ok);
    assert(u2 is Ok);
    law_upsert_same_content_keeps_one_entry(s0.db@, s0.db.next_id(), text_row(text, h, n1), text_row(text, h, n2), n1, n2);
    let a = upserted(s0.db@, s0.db.next_id(), text_row(text, h, n1), n1);
    assert(s1.db@ == a.0 && s1.db.next_id() == a.1);
}

/// Ingesting a text: a text of more than [`MAX_TEXT_BYTES`] UTF-8 bytes is
/// skipped and changes nothing. Any other text that is not the program's own
/// write keeps the self-write mark and is recorded: the entry returned is
/// the table's entry keyed by the BLAKE3 digest of the text's UTF-8 bytes;
/// when no entry had that key (and ids are left), it is a new last entry
/// that holds the text itself, is not a favourite, and has the next id, with
/// every other entry as it was.
pub proof fn law_ingest_text_records_or_skips(old: AppState, new: AppState, text: Seq<char>, r: Result<Option<ClipboardItem>, AppError>)
    requires
        old.wf(),
        ingest_text_post(old, new, text, r),
        encode_utf8(text).len() <= usize::MAX,
    ensures
        encode_utf8(text).len() > MAX_TEXT_BYTES ==> r == Ok::<Option<ClipboardItem>, AppError>(None) && new == old,
        ({
            let key = blake3_hex(encode_utf8(text));
            encode_utf8(text).len() <= MAX_TEXT_BYTES && old.pending() != Some(key) ==> {
                &&& new.pending() == old.pending()
                &&& r matches Ok(Some(item)) ==> exists|j: int| 0 <= j < new.db@.len() && (#[trigger] new.db@[j]).id == item@.id
                    && new.db@[j].hash == key && new.db@[j].last_used_at == item@.last_used_at
                &&& (forall|j: int| 0 <= j < old.db@.len() ==> (#[trigger] old.db@[j]).hash != key) && old.db.next_id() < i64::MAX ==> {
                    &&& r matches Ok(Some(item))
                    &&& new.db@.len() == old.db@.len() + 1
                    &&& forall|j: int| 0 <= j < old.db@.len() ==> new.db@[j] == old.db@[j]
                    &&& new.db@.last().text == Some(text)
                    &&& new.db@.last().kind == ClipboardKind::Text
                    &&& new.db@.last().id == old.db.next_id()
                    &&& new.db@.last().id == r->Ok_0->Some_0@.id
                    &&& !new.db@.last().favorite
                }
            }
        }),
{
    let key = blake3_hex(encode_utf8(text));
    assert(text_hash(text) == key);
    if encode_utf8(text).len() <= MAX_TEXT_BYTES && old.pending() != Some(key) {
        assert(!text_too_large(text));
        let (now, u) = choose|now: i64, u: Result<ClipboardItem, AppError>| {
            &&& upsert_post(old.db@, old.db.next_id(), text_row(text, key, now), now, new.db@, new.db.next_id(), u)
            &&& match u {
                Ok(item) => r == Ok::<Option<ClipboardItem>, AppError>(Some(item)),
                Err(e) => r == Err::<Option<ClipboardItem>, AppError>(e),
            }
        };
        let fresh = text_row(text, key, now);
        let rows = old.db@;
        if let Ok(item) = u {
            let a = upserted(rows, old.db.next_id(), fresh, now);
            if has_hash(rows, key) {
                let x = hash_index(rows, key);
                assert(new.db@[x] == a.2);
            } else {
                assert(new.db@[rows.len() as int] == a.2);
            }
        }
        if (forall|j: int| 0 <= j < rows.len() ==> (#[trigger] rows[j]).hash != key) && old.db.next_id() < i64::MAX {
            assert(!has_hash(rows, key));
            assert(u is Ok);
        }
    }
}

} // verus!
