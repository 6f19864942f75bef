use zach_tools::clipboard_store::{
    content, delete, hash_text, insert_image_at, list, prune, set_favorite, touch_by_hash,
    touch_by_hash_at, upsert_text, upsert_text_at, ClipContent, ClipboardItem, ClipboardKind,
    ClipboardStore, ImageRow, ListCursor, ListFilter, Removed, Row, PREVIEW_MAX_CHARS,
};

/// Records an image row of 640×480 under `images/<hash>[.thumb].png`.
fn insert_sample_image(store: &mut ClipboardStore, hash: &str, now: i64) -> ClipboardItem {
    let image_path = format!("images/{hash}.png");
    let thumbnail_path = format!("images/{hash}.thumb.png");
    insert_image_at(
        store,
        ImageRow {
            hash,
            image_path: &image_path,
            thumbnail_path: &thumbnail_path,
            width: 640,
            height: 480,
        },
        now,
    )
    .expect("图片入库失败")
}

fn texts(items: &[ClipboardItem]) -> Vec<Option<&str>> {
    items.iter().map(|it| it.text_preview.as_deref()).collect()
}

#[test]
fn upsert_dedups_by_hash_and_bumps_last_used() {
    let mut store = ClipboardStore::new();
    let hash = hash_text("hello");

    // first recorded at time 1, so that the second copy moves it forward
    let first = upsert_text_at(&mut store, "hello", &hash, 1).expect("首次入库失败");
    assert_eq!(first.kind, ClipboardKind::Text);
    assert_eq!(first.text_preview.as_deref(), Some("hello"));
    assert_eq!(first.text_length, Some(5));

    let second = upsert_text(&mut store, "hello", &hash).expect("再次入库失败");
    assert_eq!(first.id, second.id);
    assert!(second.last_used_at > 1);

    let all = list(&store, ListFilter::default(), 10, None);
    assert_eq!(all.len(), 1);
}

#[test]
fn prune_removes_oldest_but_keeps_favorites() {
    let mut store = ClipboardStore::new();
    let mut ids = Vec::new();
    for index in 0..3 {
        let text = format!("item-{index}");
        let item = upsert_text_at(&mut store, &text, &hash_text(&text), index).expect("入库失败");
        ids.push(item.id);
    }
    assert!(set_favorite(&mut store, ids[0], true));

    prune(&mut store, 1);

    let remaining = list(&store, ListFilter::default(), 10, None);
    // the favourite item-0 and the newest non-favourite item-2
    assert_eq!(remaining.len(), 2);
    assert!(remaining
        .iter()
        .any(|item| item.text_preview.as_deref() == Some("item-0")));
    assert!(remaining
        .iter()
        .any(|item| item.text_preview.as_deref() == Some("item-2")));
}

#[test]
fn list_escapes_like_wildcards() {
    let mut store = ClipboardStore::new();
    for text in ["progress 100%", "progress 100x"] {
        upsert_text_at(&mut store, text, &hash_text(text), 1).expect("入库失败");
    }

    let filter = ListFilter {
        keyword: Some("100%"),
        ..ListFilter::default()
    };
    let hits = list(&store, filter, 10, None);
    assert_eq!(hits.len(), 1);
    assert_eq!(hits[0].text_preview.as_deref(), Some("progress 100%"));
}

#[test]
fn list_paginates_with_keyset_and_survives_deletion() {
    let mut store = ClipboardStore::new();
    for (index, text) in ["a", "b", "c", "d"].iter().enumerate() {
        upsert_text_at(&mut store, text, &hash_text(text), index as i64 + 1).expect("入库失败");
    }

    // first page: [d, c]
    let page1 = list(&store, ListFilter::default(), 2, None);
    assert_eq!(texts(&page1), [Some("d"), Some("c")]);

    // delete the head d before turning the page: offset paging would skip b, keyset does not
    assert!(delete(&mut store, page1[0].id).is_some());

    let cursor = ListCursor {
        last_used_at: page1[1].last_used_at,
        id: page1[1].id,
    };
    let page2 = list(&store, ListFilter::default(), 2, Some(cursor));
    assert_eq!(texts(&page2), [Some("b"), Some("a")]);
}

#[test]
fn list_breaks_same_timestamp_ties_by_id() {
    let mut store = ClipboardStore::new();
    for text in ["tie-1", "tie-2"] {
        upsert_text_at(&mut store, text, &hash_text(text), 42).expect("入库失败");
    }

    // equal times are ordered by id, newest first: tie-2 leads, and no entry is lost or repeated across pages
    let page1 = list(&store, ListFilter::default(), 1, None);
    assert_eq!(page1[0].text_preview.as_deref(), Some("tie-2"));

    let cursor = ListCursor {
        last_used_at: page1[0].last_used_at,
        id: page1[0].id,
    };
    let page2 = list(&store, ListFilter::default(), 1, Some(cursor));
    assert_eq!(page2[0].text_preview.as_deref(), Some("tie-1"));
}

#[test]
fn list_filters_by_kind_and_favorite() {
    let mut store = ClipboardStore::new();
    for text in ["alpha", "beta"] {
        upsert_text_at(&mut store, text, &hash_text(text), 1).expect("入库失败");
    }
    insert_sample_image(&mut store, "image-hash", 1);

    let text_only = ListFilter {
        kind: Some(ClipboardKind::Text),
        ..ListFilter::default()
    };
    let texts = list(&store, text_only, 10, None);
    assert_eq!(texts.len(), 2);
    assert!(texts.iter().all(|item| item.kind == ClipboardKind::Text));

    let image_only = ListFilter {
        kind: Some(ClipboardKind::Image),
        ..ListFilter::default()
    };
    let images = list(&store, image_only, 10, None);
    assert_eq!(images.len(), 1);
    assert_eq!(
        images[0].image_path.as_deref(),
        Some("images/image-hash.png")
    );

    // after alpha becomes a favourite, favorite_only lists just it
    let alpha_id = texts
        .iter()
        .find(|item| item.text_preview.as_deref() == Some("alpha"))
        .expect("应有 alpha")
        .id;
    assert!(set_favorite(&mut store, alpha_id, true));

    let favorite_only = ListFilter {
        favorite_only: true,
        ..ListFilter::default()
    };
    let favorites = list(&store, favorite_only, 10, None);
    assert_eq!(favorites.len(), 1);
    assert_eq!(favorites[0].text_preview.as_deref(), Some("alpha"));
    assert!(favorites[0].is_favorite);

    // un-favouriting empties the list; an unknown id gives false
    assert!(set_favorite(&mut store, alpha_id, false));
    let favorites = list(&store, favorite_only, 10, None);
    assert!(favorites.is_empty());
    assert!(!set_favorite(&mut store, 9999, true));
}

#[test]
fn list_truncates_preview_and_reports_full_length() {
    let mut store = ClipboardStore::new();
    let long_text = "字".repeat(PREVIEW_MAX_CHARS as usize + 100);
    upsert_text_at(&mut store, &long_text, &hash_text(&long_text), 1).expect("入库失败");

    let items = list(&store, ListFilter::default(), 10, None);
    let item = &items[0];
    let preview = item.text_preview.as_deref().expect("应有文本预览");
    assert_eq!(preview.chars().count(), PREVIEW_MAX_CHARS as usize);
    assert_eq!(item.text_length, Some(PREVIEW_MAX_CHARS + 100));

    // the full text is read back by id, untouched by the preview cut
    let full = content(&store, item.id).flatten().expect("应有原文");
    let ClipContent::Text(full) = full else {
        panic!("文本条目应返回 Text 内容");
    };
    assert_eq!(full.chars().count(), PREVIEW_MAX_CHARS as usize + 100);
}

#[test]
fn insert_image_dedups_by_hash_and_touch_by_hash_bumps() {
    let mut store = ClipboardStore::new();

    // an unknown hash finds nothing and adds no row
    assert!(touch_by_hash(&mut store, "img-a").is_none());

    // recorded at time 1, so that the lookup moves it forward
    let first = insert_sample_image(&mut store, "img-a", 1);
    assert_eq!(first.kind, ClipboardKind::Image);
    assert_eq!(first.image_path.as_deref(), Some("images/img-a.png"));
    assert_eq!(
        first.thumbnail_path.as_deref(),
        Some("images/img-a.thumb.png")
    );
    assert_eq!(
        (first.image_width, first.image_height),
        (Some(640), Some(480))
    );
    assert!(first.text_preview.is_none());
    assert!(first.text_length.is_none());

    let touched = touch_by_hash(&mut store, "img-a").expect("应命中已有图片");
    assert_eq!(touched.id, first.id);
    assert!(touched.last_used_at > 1);

    // recording the same hash again only refreshes the time
    let again = insert_sample_image(&mut store, "img-a", 5);
    assert_eq!(again.id, first.id);

    let all = list(&store, ListFilter::default(), 10, None);
    assert_eq!(all.len(), 1);
}

fn row(id: i64, kind: ClipboardKind, hash: &str) -> Row {
    Row {
        id,
        kind,
        text_content: None,
        content_hash: hash.to_string(),
        image_path: None,
        thumbnail_path: None,
        image_width: None,
        image_height: None,
        file_paths: None,
        is_favorite: false,
        created_at: 1,
        last_used_at: 1,
    }
}

#[test]
fn content_distinguishes_missing_unsupported_and_kinds() {
    // a files row has no recording path yet, so the table is assembled from rows
    let mut text = row(1, ClipboardKind::Text, &hash_text("hello"));
    text.text_content = Some("hello".into());
    let mut image = row(2, ClipboardKind::Image, "img-c");
    image.image_path = Some("images/img-c.png".into());
    image.thumbnail_path = Some("images/img-c.thumb.png".into());
    let mut files = row(3, ClipboardKind::Files, "files-hash");
    files.file_paths = Some(vec!["a.txt".into()]);
    let store = ClipboardStore::from_rows(vec![text, image, files], 4).expect("行集应有效");

    assert_eq!(content(&store, 1), Some(Some(ClipContent::Text("hello".into()))));
    assert_eq!(
        content(&store, 2),
        Some(Some(ClipContent::Image {
            path: "images/img-c.png".into()
        }))
    );
    assert_eq!(content(&store, 3), Some(None));
    assert_eq!(content(&store, 9999), None);
}

#[test]
fn delete_returns_image_paths_only_for_image_rows() {
    let mut store = ClipboardStore::new();
    let text = upsert_text_at(&mut store, "plain", &hash_text("plain"), 1).expect("文本入库失败");
    let image = insert_sample_image(&mut store, "img-d", 2);

    // a text row: deleted, no file to clean
    assert_eq!(delete(&mut store, text.id), Some(Removed::default()));
    // an image row: original and thumbnail go to the caller
    assert_eq!(
        delete(&mut store, image.id),
        Some(Removed {
            image_files: vec!["images/img-d.png".into(), "images/img-d.thumb.png".into()]
        })
    );
    // no such entry
    assert_eq!(delete(&mut store, image.id), None);
}

#[test]
fn prune_returns_paths_of_evicted_images_and_spares_favorites() {
    let mut store = ClipboardStore::new();
    // oldest to newest: old-image(1) < fav-image(2) < text(3) < new-image(4)
    let old = insert_sample_image(&mut store, "img-old", 1);
    let fav = insert_sample_image(&mut store, "img-fav", 2);
    upsert_text_at(&mut store, "text", &hash_text("text"), 3).expect("文本入库失败");
    let new = insert_sample_image(&mut store, "img-new", 4);
    assert!(set_favorite(&mut store, fav.id, true));

    // one non-favourite kept: text and old-image go, the favourite fav-image stays
    let removed = prune(&mut store, 1);
    assert_eq!(
        removed.image_files,
        vec![
            "images/img-old.png".to_string(),
            "images/img-old.thumb.png".to_string()
        ]
    );

    let remaining = list(&store, ListFilter::default(), 10, None);
    let ids: Vec<_> = remaining.iter().map(|item| item.id).collect();
    assert_eq!(ids, vec![new.id, fav.id]);
    assert_ne!(old.id, new.id);
}

#[test]
fn second_prune_to_the_same_limit_removes_nothing() {
    let mut store = ClipboardStore::new();
    insert_sample_image(&mut store, "img-a", 1);
    let fav = insert_sample_image(&mut store, "img-b", 2);
    upsert_text_at(&mut store, "t1", &hash_text("t1"), 3).expect("文本入库失败");
    upsert_text_at(&mut store, "t2", &hash_text("t2"), 4).expect("文本入库失败");
    assert!(set_favorite(&mut store, fav.id, true));

    let first = prune(&mut store, 1);
    assert_eq!(first.image_files.len(), 2);
    let after_first: Vec<_> = list(&store, ListFilter::default(), 10, None).iter().map(|i| i.id).collect();
    let second = prune(&mut store, 1);
    assert!(second.image_files.is_empty());
    let after_second: Vec<_> = list(&store, ListFilter::default(), 10, None).iter().map(|i| i.id).collect();
    assert_eq!(after_first, after_second);
    assert_eq!(after_second.len(), 2);
}

#[test]
fn hash_text_is_blake3_hex_of_utf8() {
    let hash = hash_text("hello");
    assert_eq!(hash, blake3::hash("hello".as_bytes()).to_hex().to_string());
    assert_eq!(hash.len(), 64);
    assert!(hash.chars().all(|c| c.is_ascii_digit() || ('a'..='f').contains(&c)));
    assert_ne!(hash, "hello");
}

#[test]
fn keyword_trims_unicode_whitespace() {
    let mut store = ClipboardStore::new();
    upsert_text_at(&mut store, "needle here", &hash_text("needle here"), 1).expect("入库失败");
    upsert_text_at(&mut store, "other", &hash_text("other"), 2).expect("入库失败");
    let filter = ListFilter {
        keyword: Some("\u{3000}\u{00A0}NEEDLE\u{2003}\n"),
        ..ListFilter::default()
    };
    assert_eq!(texts(&list(&store, filter, 10, None)), [Some("needle here")]);
}

#[test]
fn keyword_is_trimmed_and_ignores_ascii_case() {
    let mut store = ClipboardStore::new();
    for (now, text) in ["Hello World", "goodbye", "ÄÖ hello"].iter().enumerate() {
        upsert_text_at(&mut store, text, &hash_text(text), now as i64).expect("入库失败");
    }
    insert_sample_image(&mut store, "img-k", 10);
    let filter = ListFilter {
        keyword: Some("  HELLO \t"),
        ..ListFilter::default()
    };
    let hits = list(&store, filter, 10, None);
    assert_eq!(texts(&hits), [Some("ÄÖ hello"), Some("Hello World")]);

    // a blank keyword does not filter, so the image entry is listed too
    let blank = ListFilter {
        keyword: Some("   "),
        ..ListFilter::default()
    };
    assert_eq!(list(&store, blank, 10, None).len(), 4);

    // case folding is ASCII only
    let umlaut = ListFilter {
        keyword: Some("äö"),
        ..ListFilter::default()
    };
    assert!(list(&store, umlaut, 10, None).is_empty());
}

#[test]
fn negative_limit_lists_everything_and_zero_lists_nothing() {
    let mut store = ClipboardStore::new();
    for (now, text) in ["x", "y", "z"].iter().enumerate() {
        upsert_text_at(&mut store, text, &hash_text(text), now as i64).expect("入库失败");
    }
    assert_eq!(texts(&list(&store, ListFilter::default(), -1, None)), [Some("z"), Some("y"), Some("x")]);
    assert!(list(&store, ListFilter::default(), 0, None).is_empty());
}

#[test]
fn text_length_counts_every_character_including_nul() {
    let mut store = ClipboardStore::new();
    let item = upsert_text_at(&mut store, "ab\0cd", &hash_text("ab\0cd"), 1).expect("入库失败");
    assert_eq!(item.text_preview.as_deref(), Some("ab\0cd"));
    assert_eq!(item.text_length, Some(5));
    // the full text is read back by id as well
    assert_eq!(
        content(&store, item.id),
        Some(Some(ClipContent::Text("ab\0cd".to_string())))
    );
}

#[test]
fn touch_by_hash_at_sets_the_given_time_and_moves_to_front() {
    let mut store = ClipboardStore::new();
    let a = upsert_text_at(&mut store, "a", &hash_text("a"), 1).expect("入库失败");
    upsert_text_at(&mut store, "b", &hash_text("b"), 2).expect("入库失败");
    let touched = touch_by_hash_at(&mut store, &hash_text("a"), 7).expect("应命中");
    assert_eq!(touched.id, a.id);
    assert_eq!(touched.last_used_at, 7);
    assert_eq!(touched.created_at, 1);
    let all = list(&store, ListFilter::default(), 10, None);
    assert_eq!(texts(&all), [Some("a"), Some("b")]);
}

#[test]
fn from_rows_rejects_invalid_tables() {
    let a = row(2, ClipboardKind::Text, "h1");
    let b = row(1, ClipboardKind::Text, "h2");
    assert!(ClipboardStore::from_rows(vec![a, b], 5).is_none());
    let a = row(1, ClipboardKind::Text, "same");
    let b = row(2, ClipboardKind::Text, "same");
    assert!(ClipboardStore::from_rows(vec![a, b], 5).is_none());
    let a = row(7, ClipboardKind::Text, "h");
    assert!(ClipboardStore::from_rows(vec![a], 7).is_none());
    let a = row(1, ClipboardKind::Text, "h");
    let store = ClipboardStore::from_rows(vec![a], 2).expect("行集应有效");
    assert_eq!(store.get(1).map(|r| r.content_hash.as_str()), Some("h"));
    assert!(store.get(2).is_none());
}

#[test]
fn insertion_fails_when_ids_run_out() {
    let mut store = ClipboardStore::from_rows(Vec::new(), i64::MAX).expect("空表应有效");
    let result = upsert_text_at(&mut store, "x", &hash_text("x"), 1);
    assert!(matches!(result, Err(zach_tools::error::AppError::Database(_))));
    assert!(list(&store, ListFilter::default(), 10, None).is_empty());
}

#[test]
fn keyword_lists_what_its_trimmed_form_lists_and_blank_lists_everything() {
    let mut store = ClipboardStore::new();
    upsert_text_at(&mut store, "alpha beta", &hash_text("alpha beta"), 1).expect("入库失败");
    insert_sample_image(&mut store, "img", 2);
    upsert_text_at(&mut store, "gamma", &hash_text("gamma"), 3).expect("入库失败");
    let ids = |kw: Option<&str>| -> Vec<i64> {
        let filter = ListFilter { keyword: kw, ..ListFilter::default() };
        list(&store, filter, 10, None).iter().map(|i| i.id).collect()
    };
    assert_eq!(ids(Some("  beta\t")), ids(Some("beta")));
    assert_eq!(ids(Some("beta")).len(), 1);
    // a blank keyword does not filter: the image entry (no text) is listed too
    assert_eq!(ids(Some(" \u{3000} ")), ids(None));
    assert_eq!(ids(Some("")).len(), 3);
}
