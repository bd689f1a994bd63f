use clypse::db::{fts_phrase, now_ms, timestamp_ms, ClipItem, Database, NewItem, StoreError};

fn text_item<'a>(hash: &'a str, content: &'a str) -> NewItem<'a> {
    NewItem { hash, content: Some(content), blob_path: None, mime_type: "text/plain", byte_size: content.len() }
}

fn row(id: i64, hash: &str, last_used: i64, pinned: bool) -> ClipItem {
    ClipItem {
        id,
        hash: hash.to_string(),
        content: Some(format!("content {}", id)),
        blob_path: None,
        mime_type: "text/plain".to_string(),
        byte_size: 9,
        is_favorite: false,
        is_pinned: pinned,
        created_at: last_used,
        last_used,
        use_count: 1,
    }
}

#[test]
fn new_store_is_empty() {
    let db = Database::new();
    assert_eq!(db.count(), 0);
    assert!(db.latest_item().is_none());
    assert!(db.get_items(None, &vec![], 50, 0).is_empty());
}

#[test]
fn upsert_new_item_gets_next_id() {
    let mut db = Database::new();
    assert_eq!(db.upsert_item(text_item("h1", "hello"), 100), Ok((1, true)));
    assert_eq!(db.upsert_item(text_item("h2", "world"), 200), Ok((2, true)));
    assert_eq!(db.count(), 2);
    let it = db.get_item(1).unwrap();
    assert_eq!(it.content.as_deref(), Some("hello"));
    assert_eq!(it.mime_type, "text/plain");
    assert_eq!(it.byte_size, 5);
    assert!(!it.is_favorite);
    assert!(!it.is_pinned);
    assert_eq!(it.created_at, 100);
    assert_eq!(it.last_used, 100);
    assert_eq!(it.use_count, 1);
}

#[test]
fn upsert_same_hash_refreshes_row() {
    let mut db = Database::new();
    db.upsert_item(text_item("h1", "hello"), 100).unwrap();
    db.upsert_item(text_item("h2", "world"), 200).unwrap();
    assert_eq!(db.upsert_item(text_item("h1", "hello"), 300), Ok((1, false)));
    assert_eq!(db.count(), 2);
    let it = db.get_item(1).unwrap();
    assert_eq!(it.use_count, 2);
    assert_eq!(it.last_used, 300);
    assert_eq!(it.created_at, 100);
    // the refreshed row now lists first
    let page = db.get_items(None, &vec![], 50, 0);
    assert_eq!(page.iter().map(|i| i.id).collect::<Vec<_>>(), vec![1, 2]);
}

#[test]
fn listing_puts_pinned_first_then_recent() {
    let mut db = Database::new();
    db.upsert_item(text_item("a", "a"), 10).unwrap();
    db.upsert_item(text_item("b", "b"), 20).unwrap();
    db.upsert_item(text_item("c", "c"), 30).unwrap();
    assert_eq!(db.toggle_pinned(1), Ok(true));
    let ids: Vec<i64> = db.get_items(None, &vec![], 50, 0).iter().map(|i| i.id).collect();
    assert_eq!(ids, vec![1, 3, 2]);
    assert_eq!(db.toggle_pinned(1), Ok(false));
    let ids: Vec<i64> = db.get_items(None, &vec![], 50, 0).iter().map(|i| i.id).collect();
    assert_eq!(ids, vec![3, 2, 1]);
}

#[test]
fn toggle_favorite_twice_restores() {
    let mut db = Database::new();
    db.upsert_item(text_item("a", "a"), 10).unwrap();
    assert_eq!(db.toggle_favorite(1), Ok(true));
    assert!(db.get_item(1).unwrap().is_favorite);
    assert_eq!(db.toggle_favorite(1), Ok(false));
    assert!(!db.get_item(1).unwrap().is_favorite);
}

#[test]
fn toggle_missing_row_is_no_rows() {
    let mut db = Database::new();
    assert_eq!(db.toggle_favorite(7), Err(StoreError::NoRows));
    assert_eq!(db.toggle_pinned(7), Err(StoreError::NoRows));
    assert_eq!(StoreError::NoRows.message(), "Query returned no rows");
    assert_eq!(StoreError::IntegerOverflow.message(), "integer overflow");
    assert_eq!(StoreError::IdsExhausted.message(), "database or disk is full");
}

#[test]
fn delete_removes_only_that_row() {
    let mut db = Database::new();
    db.upsert_item(text_item("a", "a"), 10).unwrap();
    db.upsert_item(text_item("b", "b"), 20).unwrap();
    db.delete_item(1);
    assert!(db.get_item(1).is_none());
    assert!(db.get_item(2).is_some());
    assert_eq!(db.count(), 1);
    db.delete_item(42);
    assert_eq!(db.count(), 1);
}

#[test]
fn enforce_limit_keeps_newest_and_protected() {
    let mut db = Database::new();
    for (i, h) in ["a", "b", "c", "d", "e"].iter().enumerate() {
        db.upsert_item(text_item(h, h), (i as i64 + 1) * 10).unwrap();
    }
    db.toggle_favorite(1).unwrap();
    db.toggle_pinned(2).unwrap();
    db.enforce_limit(2);
    let mut ids: Vec<i64> = db.get_items(None, &vec![], 50, 0).iter().map(|i| i.id).collect();
    ids.sort();
    // favorite 1 and pinned 2 stay; of the others the two newest (4, 5) stay
    assert_eq!(ids, vec![1, 2, 4, 5]);
    // trimming again changes nothing
    db.enforce_limit(2);
    assert_eq!(db.count(), 4);
}

#[test]
fn clear_keeps_only_protected() {
    let mut db = Database::new();
    db.upsert_item(text_item("a", "a"), 10).unwrap();
    db.upsert_item(text_item("b", "b"), 20).unwrap();
    db.upsert_item(text_item("c", "c"), 30).unwrap();
    db.toggle_favorite(2).unwrap();
    db.enforce_limit(0);
    assert_eq!(db.count(), 1);
    assert!(db.get_item(2).is_some());
}

#[test]
fn get_items_pages() {
    let mut db = Database::new();
    for (i, h) in ["a", "b", "c", "d"].iter().enumerate() {
        db.upsert_item(text_item(h, h), (i as i64 + 1) * 10).unwrap();
    }
    let ids: Vec<i64> = db.get_items(None, &vec![], 2, 1).iter().map(|i| i.id).collect();
    assert_eq!(ids, vec![3, 2]);
    assert!(db.get_items(None, &vec![], 2, 10).is_empty());
    let ids: Vec<i64> = db.get_items(None, &vec![], 0, 0).iter().map(|i| i.id).collect();
    assert!(ids.is_empty());
}

#[test]
fn get_items_with_search_follows_ranking() {
    let mut db = Database::new();
    for (i, h) in ["a", "b", "c"].iter().enumerate() {
        db.upsert_item(text_item(h, h), (i as i64 + 1) * 10).unwrap();
    }
    let ids: Vec<i64> = db.get_items(Some("x"), &vec![2, 99, 1], 50, 0).iter().map(|i| i.id).collect();
    assert_eq!(ids, vec![2, 1]);
    // a blank search lists everything, whatever the ranking
    let ids: Vec<i64> = db.get_items(Some("   "), &vec![2], 50, 0).iter().map(|i| i.id).collect();
    assert_eq!(ids, vec![3, 2, 1]);
}

#[test]
fn latest_item_is_most_recently_used() {
    let mut db = Database::new();
    db.upsert_item(text_item("a", "a"), 10).unwrap();
    db.upsert_item(text_item("b", "b"), 20).unwrap();
    db.toggle_pinned(1).unwrap();
    assert_eq!(db.latest_item().unwrap().id, 2);
}

#[test]
fn settings_read_back() {
    let mut db = Database::new();
    assert_eq!(db.get_setting("theme", "light"), "light");
    db.set_setting("theme", "dark");
    db.set_setting("size", "10");
    assert_eq!(db.get_setting("theme", "light"), "dark");
    db.set_setting("theme", "blue");
    assert_eq!(db.get_setting("theme", ""), "blue");
    assert_eq!(db.get_setting("size", ""), "10");
}

#[test]
fn restore_accepts_a_valid_listing() {
    let rows = vec![row(3, "c", 30, true), row(2, "b", 50, false), row(1, "a", 40, false)];
    let mut db = Database::restore(rows, 5).unwrap();
    assert_eq!(db.count(), 3);
    assert_eq!(db.upsert_item(text_item("d", "d"), 60), Ok((6, true)));
}

#[test]
fn restore_rejects_bad_listings() {
    // out of order
    assert!(Database::restore(vec![row(1, "a", 10, false), row(2, "b", 20, false)], 5).is_none());
    // duplicate hash
    assert!(Database::restore(vec![row(2, "a", 20, false), row(1, "a", 10, false)], 5).is_none());
    // id above the last one handed out
    assert!(Database::restore(vec![row(9, "a", 20, false)], 5).is_none());
    // id below 1
    assert!(Database::restore(vec![row(0, "a", 20, false)], 5).is_none());
    assert!(Database::restore(vec![], -1).is_none());
}

#[test]
fn ids_exhausted_is_reported() {
    let mut db = Database::restore(vec![row(i64::MAX, "a", 10, false)], i64::MAX).unwrap();
    assert_eq!(db.upsert_item(text_item("b", "b"), 20), Err(StoreError::IdsExhausted));
    assert_eq!(db.count(), 1);
}

#[test]
fn use_count_overflow_is_reported() {
    let mut r = row(1, "a", 10, false);
    r.use_count = i64::MAX;
    let mut db = Database::restore(vec![r], 1).unwrap();
    assert_eq!(db.upsert_item(text_item("a", "a"), 20), Err(StoreError::IntegerOverflow));
    assert_eq!(db.get_item(1).unwrap().last_used, 10);
}

#[test]
fn timestamps_from_milliseconds() {
    assert_eq!(timestamp_ms(Some(1_700_000_000_123)), 1_700_000_000_123);
    assert_eq!(timestamp_ms(None), 0);
    assert_eq!(timestamp_ms(Some(u128::from(u64::MAX) + 1)), 0);
    assert!(now_ms() > 1_600_000_000_000);
}

#[test]
fn full_text_phrases() {
    assert_eq!(fts_phrase("hello wor"), "\"hello wor\"*");
    assert_eq!(fts_phrase("a\"b\""), "\"ab\"*");
    assert_eq!(fts_phrase(""), "\"\"*");
}

#[test]
fn clearing_by_age() {
    const DAY: i64 = 86_400_000;
    let mut db = Database::new();
    db.upsert_item(text_item("a", "a"), 0).unwrap();
    db.upsert_item(text_item("b", "b"), 0).unwrap();
    db.upsert_item(text_item("c", "c"), 5 * DAY).unwrap();
    db.toggle_pinned(2).unwrap();
    db.clear_older_than(8 * DAY, None);
    assert_eq!(db.count(), 3);
    db.clear_older_than(8 * DAY, Some(3));
    let mut ids: Vec<i64> = db.get_items(None, &vec![], 50, 0).iter().map(|i| i.id).collect();
    ids.sort();
    assert_eq!(ids, vec![2, 3]);
}

#[test]
fn searched_pages_follow_the_ranking_without_repeats() {
    let mut db = Database::new();
    db.upsert_item(text_item("a", "a"), 10).unwrap();
    db.upsert_item(text_item("b", "b"), 20).unwrap();
    let ids: Vec<i64> = db.get_items(Some("q"), &vec![1, 2], 50, 0).iter().map(|i| i.id).collect();
    assert_eq!(ids, vec![1, 2]);
    let ids: Vec<i64> = db.get_items(Some("q"), &vec![2, 5, 1], 1, 1).iter().map(|i| i.id).collect();
    assert_eq!(ids, vec![1]);
}
