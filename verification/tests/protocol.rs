use clypse::db::{Database, NewItem};
use clypse::protocol::{execute_request, respond, Request, Response, ResponseData, VERSION};

fn store_with(n: usize) -> Database {
    let mut db = Database::new();
    let hashes = ["h1", "h2", "h3", "h4", "h5"];
    for i in 0..n {
        let item = NewItem { hash: hashes[i], content: Some("text"), blob_path: None, mime_type: "text/plain", byte_size: 4 };
        db.upsert_item(item, (i as i64 + 1) * 10).unwrap();
    }
    db
}

#[test]
fn request_ids_are_echoed() {
    assert_eq!(Request::Status { id: 7 }.request_id(), 7);
    assert_eq!(Request::GetItem { id: 3, item_id: 1 }.request_id(), 3);
    assert_eq!(Request::SetSetting { id: 9, key: "k".into(), value: "v".into() }.request_id(), 9);
}

#[test]
fn get_items_defaults_and_caps_the_page() {
    let mut db = store_with(3);
    let req = Request::GetItems { id: 1, search: None, limit: None, offset: None };
    match execute_request(req, &mut db, &vec![], 0) {
        Ok(ResponseData::Items { items, total }) => {
            assert_eq!(items.len(), 3);
            assert_eq!(total, 3);
        }
        other => panic!("unexpected {:?}", other),
    }
    let req = Request::GetItems { id: 1, search: None, limit: Some(1), offset: Some(1) };
    match execute_request(req, &mut db, &vec![], 0) {
        Ok(ResponseData::Items { items, total }) => {
            assert_eq!(items.iter().map(|i| i.id).collect::<Vec<_>>(), vec![2]);
            assert_eq!(total, 3);
        }
        other => panic!("unexpected {:?}", other),
    }
}

#[test]
fn toggle_and_delete_requests() {
    let mut db = store_with(2);
    match execute_request(Request::ToggleFavorite { id: 1, item_id: 2 }, &mut db, &vec![], 0) {
        Ok(ResponseData::Favorite { item_id, is_favorite }) => {
            assert_eq!(item_id, 2);
            assert!(is_favorite);
        }
        other => panic!("unexpected {:?}", other),
    }
    match execute_request(Request::TogglePinned { id: 1, item_id: 1 }, &mut db, &vec![], 0) {
        Ok(ResponseData::Pinned { item_id, is_pinned }) => {
            assert_eq!(item_id, 1);
            assert!(is_pinned);
        }
        other => panic!("unexpected {:?}", other),
    }
    match execute_request(Request::DeleteItem { id: 1, item_id: 2 }, &mut db, &vec![], 0) {
        Ok(ResponseData::Deleted { item_id }) => assert_eq!(item_id, 2),
        other => panic!("unexpected {:?}", other),
    }
    assert_eq!(db.count(), 1);
}

#[test]
fn toggle_of_missing_item_is_an_error() {
    let mut db = store_with(1);
    match execute_request(Request::ToggleFavorite { id: 1, item_id: 5 }, &mut db, &vec![], 0) {
        Err(m) => assert_eq!(m, "Query returned no rows"),
        other => panic!("unexpected {:?}", other),
    }
}

#[test]
fn get_item_answers_none_for_missing() {
    let mut db = store_with(1);
    match execute_request(Request::GetItem { id: 1, item_id: 1 }, &mut db, &vec![], 0) {
        Ok(ResponseData::Item { item }) => assert_eq!(item.unwrap().id, 1),
        other => panic!("unexpected {:?}", other),
    }
    match execute_request(Request::GetItem { id: 1, item_id: 9 }, &mut db, &vec![], 0) {
        Ok(ResponseData::Item { item }) => assert!(item.is_none()),
        other => panic!("unexpected {:?}", other),
    }
}

#[test]
fn clear_history_counts_removed() {
    let mut db = store_with(4);
    db.toggle_favorite(1).unwrap();
    match execute_request(Request::ClearHistory { id: 1 }, &mut db, &vec![], 0) {
        Ok(ResponseData::Cleared { removed }) => assert_eq!(removed, 3),
        other => panic!("unexpected {:?}", other),
    }
    assert_eq!(db.count(), 1);
}

#[test]
fn settings_requests() {
    let mut db = Database::new();
    match execute_request(Request::GetSetting { id: 1, key: "x".into() }, &mut db, &vec![], 0) {
        Ok(ResponseData::Setting { key, value }) => {
            assert_eq!(key, "x");
            assert_eq!(value, "");
        }
        other => panic!("unexpected {:?}", other),
    }
    match execute_request(Request::SetSetting { id: 1, key: "x".into(), value: "1".into() }, &mut db, &vec![], 0) {
        Ok(ResponseData::SettingSet { key }) => assert_eq!(key, "x"),
        other => panic!("unexpected {:?}", other),
    }
    match execute_request(Request::GetSetting { id: 1, key: "x".into() }, &mut db, &vec![], 0) {
        Ok(ResponseData::Setting { value, .. }) => assert_eq!(value, "1"),
        other => panic!("unexpected {:?}", other),
    }
}

#[test]
fn status_reports_version_count_uptime() {
    let mut db = store_with(2);
    match execute_request(Request::Status { id: 1 }, &mut db, &vec![], 42) {
        Ok(ResponseData::Status { version, item_count, uptime_secs }) => {
            assert_eq!(version, VERSION);
            assert_eq!(version, "0.2.0");
            assert_eq!(item_count, 2);
            assert_eq!(uptime_secs, 42);
        }
        other => panic!("unexpected {:?}", other),
    }
}

#[test]
fn respond_wraps_results_and_errors() {
    let mut db = store_with(1);
    match respond(Ok(Request::DeleteItem { id: 12, item_id: 1 }), &mut db, &vec![], 0) {
        Response::Result { id, data: ResponseData::Deleted { item_id } } => {
            assert_eq!(id, 12);
            assert_eq!(item_id, 1);
        }
        other => panic!("unexpected {:?}", other),
    }
    match respond(Ok(Request::TogglePinned { id: 13, item_id: 1 }), &mut db, &vec![], 0) {
        Response::Error { id, message } => {
            assert_eq!(id, 13);
            assert_eq!(message, "Query returned no rows");
        }
        other => panic!("unexpected {:?}", other),
    }
    match respond(Err("expected value at line 1 column 1".into()), &mut db, &vec![], 0) {
        Response::Error { id, message } => {
            assert_eq!(id, 0);
            assert_eq!(message, "parse error: expected value at line 1 column 1");
        }
        other => panic!("unexpected {:?}", other),
    }
}
