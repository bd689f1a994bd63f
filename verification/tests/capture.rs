use clypse::capture::{
    blob_file_name, detect_session, image_extension, plan_capture, store_capture, Capture, ClipboardEvent,
    ClipboardMonitor, OfferState, SelectionWatch, SessionType, SkipReason,
};
use clypse::db::Database;
use clypse::capture::session_from_lowered;
use clypse::hash::{hash_bytes, hex_string};
use clypse::protocol::Event;

const ABC_SHA256: &str = "ba7816bf8f01cfea414140de5dae2223b00361a396177a9cb410ff61f20015ad";

fn event(data: &[u8], mime: &str) -> ClipboardEvent {
    ClipboardEvent { hash: hash_bytes(data), data: data.to_vec(), mime_type: mime.to_string() }
}

#[test]
fn hashes_are_lowercase_sha256_hex() {
    assert_eq!(hash_bytes(b"abc"), ABC_SHA256);
    assert_eq!(hash_bytes(b""), "e3b0c44298fc1c149afbf4c8996fb92427ae41e4649b934ca495991b7852b855");
    assert_eq!(hash_bytes(b"abc").len(), 64);
}

#[test]
fn session_detection() {
    assert_eq!(detect_session(true, ""), SessionType::Wayland);
    assert_eq!(detect_session(false, "WayLand"), SessionType::Wayland);
    assert_eq!(detect_session(false, "x11"), SessionType::X11);
    assert_eq!(detect_session(false, ""), SessionType::X11);
}

#[test]
fn offers_collect_their_mime_types() {
    let mut st = OfferState::new();
    assert!(!st.data_offer());
    st.offer_mime("text/plain".into());
    st.offer_mime("image/png".into());
    // a second announcement drops the first offer
    assert!(st.data_offer());
    st.offer_mime("text/html".into());
    assert_eq!(st.selection(true), Some(vec!["text/html".to_string()]));
    assert_eq!(st.selection(false), None);
}

#[test]
fn monitor_skips_empty_and_repeated_payloads() {
    let mut m = ClipboardMonitor::new(0);
    assert!(m.observe(vec![], "text/plain".into(), 0).is_none());
    let ev = m.observe(b"abc".to_vec(), "text/plain".into(), 1).unwrap();
    assert_eq!(ev.hash, ABC_SHA256);
    assert_eq!(ev.data, b"abc".to_vec());
    assert_eq!(ev.mime_type, "text/plain");
    assert!(m.observe(b"abc".to_vec(), "text/plain".into(), 2).is_none());
    assert!(m.observe(b"abd".to_vec(), "text/plain".into(), 3).is_some());
    assert!(m.observe(b"abc".to_vec(), "text/plain".into(), 4).is_some());
}

#[test]
fn selection_watch_debounces_and_dedups() {
    let mut w = SelectionWatch::new(50);
    assert!(w.should_fetch(0));
    let ev = w.content(b"abc".to_vec(), 1000).unwrap();
    assert_eq!(ev.mime_type, "text/plain;charset=utf-8");
    assert!(!w.should_fetch(1049));
    assert!(w.should_fetch(1050));
    // a clock reading earlier than the last capture counts as no time at all
    assert!(!w.should_fetch(10));
    assert!(w.content(b"abc".to_vec(), 2000).is_none());
    assert!(w.should_fetch(1050));
    assert!(w.content(vec![], 3000).is_none());
    assert!(w.content(b"x".to_vec(), 3000).is_some());
    assert!(!w.should_fetch(3020));
}

#[test]
fn capture_plans() {
    match plan_capture(&event(b"  https://example.com ", "text/plain"), 10, true) {
        Capture::Text { content, mime_type } => {
            assert_eq!(content, "  https://example.com ");
            assert_eq!(mime_type, "text/uri");
        }
        other => panic!("unexpected {:?}", other),
    }
    assert!(matches!(plan_capture(&event(b" \n\t", "text/plain"), 10, true), Capture::Skip(SkipReason::BlankText)));
    assert!(matches!(plan_capture(&event(&[0xff, 0xfe], "text/plain"), 10, true), Capture::Skip(SkipReason::NotUtf8)));
    assert!(matches!(plan_capture(&event(&[1; 11], "image/png"), 10, true), Capture::Skip(SkipReason::ImageTooLarge)));
    match plan_capture(&event(&[1; 10], "image/png"), 10, true) {
        Capture::Blob { mime_type } => assert_eq!(mime_type, "image/png"),
        other => panic!("unexpected {:?}", other),
    }
    match plan_capture(&event(b"{\"a\":1}", "application/json"), 10, true) {
        Capture::Text { mime_type, .. } => assert_eq!(mime_type, "text/json"),
        other => panic!("unexpected {:?}", other),
    }
}

#[test]
fn image_file_names() {
    assert_eq!(image_extension("image/png"), "png");
    assert_eq!(image_extension("image/svg+xml"), "svg");
    assert_eq!(image_extension("weird"), "bin");
    assert_eq!(image_extension("a/b/c"), "b");
    assert_eq!(blob_file_name(ABC_SHA256, "image/jpeg"), "ba7816bf8f01cfea.jpeg");
}

#[test]
fn storing_text_announces_new_entries() {
    let mut db = Database::new();
    let ev = event(b"hello", "text/plain");
    let cap = plan_capture(&ev, 100, true);
    let stored = store_capture(&mut db, &ev, &cap, None, 500, None, 10, SessionType::Wayland);
    assert_eq!(stored.outcome, Ok((1, true)));
    match stored.notify {
        Some(Event::ItemAdded { item }) => {
            assert_eq!(item.content.as_deref(), Some("hello"));
            assert_eq!(item.mime_type, "text/plain");
        }
        other => panic!("unexpected {:?}", other),
    }
    assert_eq!(stored.ownership, Some((b"hello".to_vec(), "text/plain".to_string())));
    // the same payload again refreshes the entry
    let again = store_capture(&mut db, &ev, &cap, None, 500, None, 20, SessionType::X11);
    assert_eq!(again.outcome, Ok((1, false)));
    assert!(matches!(again.notify, Some(Event::ItemUpdated { item_id: 1 })));
    assert!(again.ownership.is_none());
}

#[test]
fn storing_an_image_records_its_file() {
    let mut db = Database::new();
    let ev = event(&[1, 2, 3], "image/png");
    let cap = plan_capture(&ev, 100, true);
    let stored = store_capture(&mut db, &ev, &cap, Some("/tmp/x.png".into()), 500, None, 10, SessionType::Wayland);
    assert_eq!(stored.outcome, Ok((1, true)));
    let it = db.get_item(1).unwrap();
    assert!(it.content.is_none());
    assert_eq!(it.blob_path.as_deref(), Some("/tmp/x.png"));
    assert_eq!(it.byte_size, 3);
    assert_eq!(stored.ownership, Some((vec![1, 2, 3], "image/png".to_string())));
}

#[test]
fn storing_applies_the_history_limit() {
    let mut db = Database::new();
    for (i, t) in ["one", "two", "three"].iter().enumerate() {
        let ev = event(t.as_bytes(), "text/plain");
        let cap = plan_capture(&ev, 100, true);
        store_capture(&mut db, &ev, &cap, None, 2, None, i as i64, SessionType::X11);
    }
    assert_eq!(db.count(), 2);
    assert!(db.get_item(1).is_none());
    // with a zero limit the new entry is trimmed away and nothing is announced
    let ev = event(b"four", "text/plain");
    let cap = plan_capture(&ev, 100, true);
    let stored = store_capture(&mut db, &ev, &cap, None, 0, None, 9, SessionType::X11);
    assert_eq!(stored.outcome, Ok((4, true)));
    assert!(stored.notify.is_none());
    assert_eq!(db.count(), 0);
}

#[test]
fn hex_digits_of_a_digest() {
    assert_eq!(hex_string(&[0x00, 0xab, 0x10, 0xff]), "00ab10ff");
    assert_eq!(hex_string(&[]), "");
}

#[test]
fn session_from_a_lowercased_type() {
    assert_eq!(session_from_lowered(false, "wayland"), SessionType::Wayland);
    assert_eq!(session_from_lowered(false, "WAYLAND"), SessionType::X11);
    assert_eq!(session_from_lowered(true, "x11"), SessionType::Wayland);
}

#[test]
fn monitor_with_given_hashes() {
    let mut m = ClipboardMonitor::new(0);
    let ev = m.observe_hashed(b"x".to_vec(), "h1".into(), "text/plain".into(), 0).unwrap();
    assert_eq!(ev.hash, "h1");
    assert!(m.observe_hashed(b"y".to_vec(), "h1".into(), "text/plain".into(), 1).is_none());
    assert!(m.observe_hashed(vec![], "h2".into(), "text/plain".into(), 2).is_none());
    assert!(m.observe_hashed(b"y".to_vec(), "h2".into(), "text/plain".into(), 3).is_some());
    let mut w = SelectionWatch::new(50);
    assert!(w.content_hashed(b"x".to_vec(), "h1".into(), 5).is_some());
    assert!(w.content_hashed(b"z".to_vec(), "h1".into(), 500).is_none());
    assert!(!w.should_fetch(54));
    assert!(w.should_fetch(55));
}

#[test]
fn monitor_keeps_the_debounce_window() {
    let mut m = ClipboardMonitor::new(50);
    assert!(m.observe(b"one".to_vec(), "text/plain".into(), 1000).is_some());
    // a different payload 49 ms later is dropped, and does not move the window
    assert!(m.observe(b"two".to_vec(), "text/plain".into(), 1049).is_none());
    assert!(m.observe(b"two".to_vec(), "text/plain".into(), 1050).is_some());
    // an earlier clock reading counts as no time at all
    assert!(m.observe(b"three".to_vec(), "text/plain".into(), 10).is_none());
    let mut w = SelectionWatch::new(200);
    assert!(w.content(b"a".to_vec(), 100).is_some());
    assert!(!w.should_fetch(299));
    assert!(w.should_fetch(300));
}

#[test]
fn images_off_skips_images_only() {
    assert!(matches!(plan_capture(&event(&[1; 5], "image/png"), 10, false), Capture::Skip(SkipReason::ImagesDisabled)));
    assert!(matches!(plan_capture(&event(&[1; 50], "image/png"), 10, false), Capture::Skip(SkipReason::ImagesDisabled)));
    assert!(matches!(plan_capture(&event(b"hi", "text/plain"), 10, false), Capture::Text { .. }));
    assert!(matches!(plan_capture(&event(&[1; 5], "application/pdf"), 10, false), Capture::Blob { .. }));
}

#[test]
fn storing_clears_old_entries() {
    const DAY: i64 = 86_400_000;
    let mut db = Database::new();
    for (t, text) in [(0, "old"), (DAY, "older fav"), (9 * DAY, "recent")] {
        let ev = event(text.as_bytes(), "text/plain");
        let cap = plan_capture(&ev, 100, true);
        store_capture(&mut db, &ev, &cap, None, 500, None, t, SessionType::X11);
    }
    db.toggle_favorite(2).unwrap();
    let ev = event(b"new", "text/plain");
    let cap = plan_capture(&ev, 100, true);
    let stored = store_capture(&mut db, &ev, &cap, None, 500, Some(7), 10 * DAY, SessionType::X11);
    assert_eq!(stored.outcome, Ok((4, true)));
    assert!(db.get_item(1).is_none());
    assert!(db.get_item(2).is_some());
    assert!(db.get_item(3).is_some());
    assert!(db.get_item(4).is_some());
    // zero days keeps everything
    let ev = event(b"newer", "text/plain");
    let cap = plan_capture(&ev, 100, true);
    store_capture(&mut db, &ev, &cap, None, 500, Some(0), 100 * DAY, SessionType::X11);
    assert_eq!(db.count(), 4);
}
