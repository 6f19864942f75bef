use zach_tools::clipboard_ingest::{ingest_image_begin, ingest_image_record, ingest_text, ImageIngest};
use zach_tools::clipboard_store::{
    hash_text, list, upsert_text_at, ClipContent, ClipboardKind, ClipboardStore, ListFilter,
    Row, MAX_TEXT_BYTES,
};
use zach_tools::commands::{
    delete_clipboard_item, get_content, list_clipboard_items, set_clipboard_favorite,
};
use zach_tools::error::AppError;
use zach_tools::image_store::{hash_image, prepare_save, ImageData};
use zach_tools::launcher::{
    blur_action, menu_action, tray_click_action, tray_toggle_action, toggle_action,
    LauncherAction, MenuAction, TrayButton, MENU_OPEN, MENU_QUIT,
};
use zach_tools::platform::{
    after_failed_attempt, after_image_read, after_text_read, focus_window, foreground_window,
    retry_delay_ms, send_ctrl_v, Backoff, ClipboardCapture, ImageRead, ReadStep, TextRead,
    UpdateDebounce,
};
use zach_tools::state::AppState;

fn state() -> AppState {
    AppState::new(ClipboardStore::new(), "images".to_string())
}

#[test]
fn self_write_mark_swallows_one_matching_event() {
    let mut s = state();
    s.mark_self_write("h1".to_string());
    assert!(!s.take_self_write_if_matches("h2"));
    assert!(s.take_self_write_if_matches("h1"));
    assert!(!s.take_self_write_if_matches("h1"));
    s.mark_self_write("h3".to_string());
    s.clear_self_write();
    assert!(!s.take_self_write_if_matches("h3"));
}

#[test]
fn paste_target_is_remembered() {
    let mut s = state();
    assert_eq!(s.paste_target(), None);
    s.remember_paste_target(Some(42));
    assert_eq!(s.paste_target(), Some(42));
    assert_eq!(s.image_dir(), "images");
}

#[test]
fn ingest_text_skips_own_writes_and_records_others() {
    let mut s = state();
    s.mark_self_write(hash_text("mine"));
    assert!(ingest_text(&mut s, "mine".to_string()).expect("入库失败").is_none());
    assert!(list(s.db(), ListFilter::default(), 10, None).is_empty());

    let item = ingest_text(&mut s, "theirs".to_string()).expect("入库失败").expect("应入库");
    assert_eq!(item.text_preview.as_deref(), Some("theirs"));
    // the mark was consumed: the same text now records
    let again = ingest_text(&mut s, "mine".to_string()).expect("入库失败");
    assert!(again.is_some());
    assert_eq!(list(s.db(), ListFilter::default(), 10, None).len(), 2);
}

#[test]
fn ingest_text_skips_oversized_text() {
    let mut s = state();
    let big = "a".repeat(MAX_TEXT_BYTES + 1);
    assert!(ingest_text(&mut s, big).expect("入库失败").is_none());
    let edge = "a".repeat(MAX_TEXT_BYTES);
    assert!(ingest_text(&mut s, edge).expect("入库失败").is_some());
}

#[test]
fn ingest_image_looks_up_before_storing() {
    let mut s = state();
    let image = ImageData { width: 2, height: 1, bytes: vec![1, 2, 3, 4, 5, 6, 7, 8] };
    let hash = match ingest_image_begin(&mut s, &image) {
        ImageIngest::Store { hash } => hash,
        other => panic!("新图片应待落盘: {other:?}"),
    };
    assert_eq!(hash, hash_image(2, 1, &image.bytes));
    let encoded = prepare_save(s.image_dir(), &image, &hash).expect("编码失败");
    let item = ingest_image_record(&mut s, &encoded.stored).expect("入库失败");
    assert_eq!(item.kind, ClipboardKind::Image);
    assert_eq!(item.image_path.as_deref(), Some(format!("images/{hash}.png").as_str()));

    match ingest_image_begin(&mut s, &image) {
        ImageIngest::Existing(existing) => assert_eq!(existing.id, item.id),
        other => panic!("重复图片应命中: {other:?}"),
    }
    s.mark_self_write(hash.clone());
    assert!(matches!(ingest_image_begin(&mut s, &image), ImageIngest::Skipped));
}

#[test]
fn list_command_clamps_the_page_size() {
    let mut s = state();
    for index in 0..60 {
        let text = format!("t{index}");
        upsert_text_at(&mut s.db, &text, &hash_text(&text), index).expect("入库失败");
    }
    assert_eq!(list_clipboard_items(&s, None, None, None, None, None).len(), 50);
    assert_eq!(list_clipboard_items(&s, None, None, None, Some(0), None).len(), 1);
    assert_eq!(list_clipboard_items(&s, None, None, None, Some(-5), None).len(), 1);
    assert_eq!(list_clipboard_items(&s, None, None, None, Some(5000), None).len(), 60);
    let hits = list_clipboard_items(&s, Some("t5".to_string()), Some(ClipboardKind::Text), Some(false), Some(100), None);
    assert_eq!(hits.len(), 11);
    assert_eq!(hits[0].text_preview.as_deref(), Some("t59"));
}

#[test]
fn favorite_and_delete_commands_report_missing_entries() {
    let mut s = state();
    let item = upsert_text_at(&mut s.db, "x", &hash_text("x"), 1).expect("入库失败");
    assert_eq!(set_clipboard_favorite(&mut s, item.id, true), Ok(()));
    assert_eq!(set_clipboard_favorite(&mut s, 999, true), Err(AppError::ItemNotFound));
    let favorites = list_clipboard_items(&s, None, None, Some(true), None, None);
    assert_eq!(favorites.len(), 1);
    assert!(delete_clipboard_item(&mut s, item.id).expect("删除失败").image_files.is_empty());
    assert_eq!(delete_clipboard_item(&mut s, item.id), Err(AppError::ItemNotFound));
}

#[test]
fn get_content_distinguishes_errors() {
    let files = Row {
        id: 1,
        kind: ClipboardKind::Files,
        text_content: None,
        content_hash: "f".to_string(),
        image_path: None,
        thumbnail_path: None,
        image_width: None,
        image_height: None,
        file_paths: Some(vec!["a.txt".to_string()]),
        is_favorite: false,
        created_at: 1,
        last_used_at: 1,
    };
    let store = ClipboardStore::from_rows(vec![files], 2).expect("行集应有效");
    let mut s = AppState::new(store, "images".to_string());
    assert_eq!(get_content(&s, 1), Err(AppError::UnsupportedKind));
    assert_eq!(get_content(&s, 2), Err(AppError::ItemNotFound));
    let item = upsert_text_at(&mut s.db, "y", &hash_text("y"), 2).expect("入库失败");
    assert_eq!(get_content(&s, item.id), Ok(ClipContent::Text("y".to_string())));
}

#[test]
fn launcher_decisions() {
    assert_eq!(toggle_action(true, true), LauncherAction::Hide);
    assert_eq!(toggle_action(true, false), LauncherAction::Show);
    assert_eq!(toggle_action(false, false), LauncherAction::Show);
    assert_eq!(tray_toggle_action(true), LauncherAction::Hide);
    assert_eq!(tray_toggle_action(false), LauncherAction::Show);
    assert_eq!(blur_action(true), LauncherAction::Keep);
    assert_eq!(blur_action(false), LauncherAction::Hide);
    assert_eq!(tray_click_action(TrayButton::Left, false), LauncherAction::Show);
    assert_eq!(tray_click_action(TrayButton::Right, false), LauncherAction::Hide);
    assert_eq!(tray_click_action(TrayButton::Middle, true), LauncherAction::Keep);
}

#[test]
fn platform_fallbacks_do_nothing() {
    assert_eq!(foreground_window(), None);
    assert!(!focus_window(7));
    send_ctrl_v();
}

#[test]
fn clipboard_read_prefers_non_empty_text() {
    assert!(matches!(
        after_text_read(TextRead::Text("hi".to_string())),
        ReadStep::Done(Some(ClipboardCapture::Text(t))) if t == "hi"
    ));
    assert!(matches!(after_text_read(TextRead::Text(String::new())), ReadStep::ReadImage));
    assert!(matches!(after_text_read(TextRead::Unavailable), ReadStep::ReadImage));
    assert!(matches!(after_text_read(TextRead::Failed), ReadStep::Retry));
    let image = ImageData { width: 1, height: 1, bytes: vec![0, 0, 0, 255] };
    assert!(matches!(
        after_image_read(ImageRead::Image(image)),
        ReadStep::Done(Some(ClipboardCapture::Image(i))) if i.width == 1
    ));
    assert!(matches!(after_image_read(ImageRead::Unavailable), ReadStep::Done(None)));
    assert!(matches!(after_image_read(ImageRead::Failed), ReadStep::Retry));
    assert_eq!(retry_delay_ms(1), 30);
    assert_eq!(retry_delay_ms(3), 90);
}

#[test]
fn tray_menu_routes_by_item_id() {
    assert_eq!(menu_action(MENU_OPEN), MenuAction::OpenLauncher);
    assert_eq!(menu_action("open-launcher"), MenuAction::OpenLauncher);
    assert_eq!(menu_action(MENU_QUIT), MenuAction::Quit);
    assert_eq!(menu_action("quit"), MenuAction::Quit);
    assert_eq!(menu_action("Quit"), MenuAction::Ignore);
    assert_eq!(menu_action(""), MenuAction::Ignore);
    assert_eq!(menu_action("open-launcher "), MenuAction::Ignore);
}

#[test]
fn clipboard_read_retries_three_times_with_growing_backoff() {
    assert_eq!(after_failed_attempt(1), Backoff { delay_ms: 30, next_attempt: Some(2) });
    assert_eq!(after_failed_attempt(2), Backoff { delay_ms: 60, next_attempt: Some(3) });
    assert_eq!(after_failed_attempt(3), Backoff { delay_ms: 90, next_attempt: None });
}

#[test]
fn repeated_notifications_of_one_copy_count_once() {
    let mut debounce = UpdateDebounce::new(7);
    assert!(!debounce.observe(7));
    assert!(debounce.observe(8));
    assert!(!debounce.observe(8));
    assert!(!debounce.observe(8));
    assert!(debounce.observe(3));
    assert_eq!(debounce.last_sequence, 3);
}

#[test]
fn clipboard_write_marks_the_content_and_a_failed_write_clears_the_mark() {
    let mut s = state();
    s.begin_text_write("hello");
    s.after_clipboard_write(true);
    assert!(s.take_self_write_if_matches(&hash_text("hello")));

    s.begin_text_write("hello");
    s.after_clipboard_write(false);
    assert!(!s.take_self_write_if_matches(&hash_text("hello")));

    let image = ImageData { width: 1, height: 2, bytes: vec![9u8; 8] };
    s.begin_image_write(&image);
    s.after_clipboard_write(true);
    assert!(!s.take_self_write_if_matches(&hash_text("hello")));
    assert!(s.take_self_write_if_matches(&hash_image(1, 2, &[9u8; 8])));
}
