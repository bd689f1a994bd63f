use clypse::client::{
    after_session, ClientSession, LinkAction, clip_item_from_json, clip_items_from_json, command_to_json, get_items_request, parse_daemon_message, DaemonMessage,
    GuiCommand, Json,
};

fn obj(entries: Vec<(&str, Json)>) -> Json {
    Json::Object(entries.into_iter().map(|(k, v)| (k.to_string(), v)).collect())
}

fn s(t: &str) -> Json {
    Json::Str(t.to_string())
}

fn item_json(id: i64, content: Option<&str>) -> Json {
    obj(vec![
        ("id", Json::Int(id)),
        ("hash", s("abc")),
        ("content", match content { Some(c) => s(c), None => Json::Null }),
        ("mime_type", s("text/plain")),
        ("byte_size", Json::Int(3)),
        ("is_favorite", Json::Bool(false)),
        ("is_pinned", Json::Bool(true)),
        ("created_at", Json::Int(10)),
        ("last_used", Json::Int(20)),
        ("use_count", Json::Int(2)),
    ])
}

#[test]
fn items_request_escapes_search() {
    assert_eq!(
        get_items_request(4, Some("a\"b\\c"), 100, 0),
        "{\"method\":\"get_items\",\"id\":4,\"search\":\"a\\\"b\\\\c\",\"limit\":100,\"offset\":0}\n"
    );
    assert_eq!(
        get_items_request(1, None, 50, 10),
        "{\"method\":\"get_items\",\"id\":1,\"search\":null,\"limit\":50,\"offset\":10}\n"
    );
}

#[test]
fn commands_become_request_lines() {
    assert_eq!(
        command_to_json(&GuiCommand::ToggleFavorite(-3), 2),
        "{\"method\":\"toggle_favorite\",\"id\":2,\"item_id\":-3}\n"
    );
    assert_eq!(command_to_json(&GuiCommand::DeleteItem(8), 5), "{\"method\":\"delete_item\",\"id\":5,\"item_id\":8}\n");
    assert_eq!(command_to_json(&GuiCommand::ClearHistory, 6), "{\"method\":\"clear_history\",\"id\":6}\n");
    assert_eq!(
        command_to_json(&GuiCommand::GetItems { search: Some("x".into()), limit: 100, offset: 0 }, 7),
        "{\"method\":\"get_items\",\"id\":7,\"search\":\"x\",\"limit\":100,\"offset\":0}\n"
    );
}

#[test]
fn json_member_lookup() {
    let v = obj(vec![("a", Json::Int(1)), ("b", s("x"))]);
    assert_eq!(v.get("a").as_i64(), Some(1));
    assert_eq!(v.get("b").as_str(), Some("x"));
    assert!(matches!(v.get("c"), Json::Null));
    assert!(matches!(Json::Int(3).get("a"), Json::Null));
    assert_eq!(Json::Bool(true).as_bool(), Some(true));
    assert_eq!(s("t").as_i64(), None);
}

#[test]
fn entry_reads_from_object_and_array() {
    let it = clip_item_from_json(&item_json(5, Some("hi"))).unwrap();
    assert_eq!(it.id, 5);
    assert_eq!(it.content.as_deref(), Some("hi"));
    assert!(it.is_pinned);
    assert_eq!(it.use_count, 2);
    // a missing optional field reads as none
    let no_blob = clip_item_from_json(&item_json(6, None)).unwrap();
    assert!(no_blob.content.is_none());
    assert!(no_blob.blob_path.is_none());
    // a wrongly typed field makes the entry unreadable
    let bad = obj(vec![("id", s("1"))]);
    assert!(clip_item_from_json(&bad).is_none());
    let arr = Json::Array(vec![
        Json::Int(1), s("h"), s("c"), Json::Null, s("text/plain"), Json::Int(1),
        Json::Bool(true), Json::Bool(false), Json::Int(1), Json::Int(2), Json::Int(3),
    ]);
    let it = clip_item_from_json(&arr).unwrap();
    assert!(it.is_favorite);
    assert_eq!(it.last_used, 2);
    assert!(clip_item_from_json(&Json::Array(vec![Json::Int(1)])).is_none());
}

#[test]
fn entry_lists_are_all_or_nothing() {
    let list = Json::Array(vec![item_json(1, Some("a")), item_json(2, Some("b"))]);
    assert_eq!(clip_items_from_json(&list).unwrap().len(), 2);
    let broken = Json::Array(vec![item_json(1, Some("a")), Json::Int(3)]);
    assert!(clip_items_from_json(&broken).is_none());
    assert!(clip_items_from_json(&Json::Null).is_none());
}

#[test]
fn parses_item_results() {
    let msg = obj(vec![
        ("type", s("result")),
        ("id", Json::Int(1)),
        ("data", obj(vec![("kind", s("items")), ("items", Json::Array(vec![item_json(1, Some("a"))])), ("total", Json::Int(9))])),
    ]);
    match parse_daemon_message(&msg) {
        Some(DaemonMessage::Items { items, total }) => {
            assert_eq!(items.len(), 1);
            assert_eq!(total, 9);
        }
        other => panic!("unexpected {:?}", other),
    }
    let no_total = obj(vec![
        ("type", s("result")),
        ("data", obj(vec![("kind", s("items")), ("items", Json::Array(vec![]))])),
    ]);
    assert!(matches!(parse_daemon_message(&no_total), Some(DaemonMessage::Items { total: 0, .. })));
}

#[test]
fn parses_other_results_and_events() {
    let fav = obj(vec![
        ("type", s("result")),
        ("data", obj(vec![("kind", s("favorite")), ("item_id", Json::Int(4)), ("is_favorite", Json::Bool(true))])),
    ]);
    assert!(matches!(parse_daemon_message(&fav), Some(DaemonMessage::FavoriteToggled { item_id: 4, is_favorite: true })));
    let pin = obj(vec![
        ("type", s("result")),
        ("data", obj(vec![("kind", s("pinned")), ("item_id", Json::Int(4)), ("is_pinned", Json::Bool(false))])),
    ]);
    assert!(matches!(parse_daemon_message(&pin), Some(DaemonMessage::PinnedToggled { item_id: 4, is_pinned: false })));
    let del = obj(vec![("type", s("result")), ("data", obj(vec![("kind", s("deleted")), ("item_id", Json::Int(2))]))]);
    assert!(matches!(parse_daemon_message(&del), Some(DaemonMessage::ItemDeleted { item_id: 2 })));
    let cleared = obj(vec![("type", s("result")), ("data", obj(vec![("kind", s("cleared")), ("removed", Json::Int(3))]))]);
    assert!(matches!(parse_daemon_message(&cleared), Some(DaemonMessage::HistoryCleared)));
    let added = obj(vec![("type", s("event")), ("event", obj(vec![("kind", s("item_added")), ("item", item_json(7, Some("x")))]))]);
    assert!(matches!(parse_daemon_message(&added), Some(DaemonMessage::ItemAdded(ref it)) if it.id == 7));
    let updated = obj(vec![("type", s("event")), ("event", obj(vec![("kind", s("item_updated")), ("item_id", Json::Int(7))]))]);
    assert!(matches!(parse_daemon_message(&updated), Some(DaemonMessage::ItemUpdated)));
    let gone = obj(vec![("type", s("event")), ("event", obj(vec![("kind", s("item_deleted")), ("item_id", Json::Int(7))]))]);
    assert!(matches!(parse_daemon_message(&gone), Some(DaemonMessage::ItemDeleted { item_id: 7 })));
    let wiped = obj(vec![("type", s("event")), ("event", obj(vec![("kind", s("history_cleared"))]))]);
    assert!(matches!(parse_daemon_message(&wiped), Some(DaemonMessage::HistoryCleared)));
}

#[test]
fn parses_errors_and_ignores_the_rest() {
    let err = obj(vec![("type", s("error")), ("id", Json::Int(1)), ("message", s("boom"))]);
    match parse_daemon_message(&err) {
        Some(DaemonMessage::Error(m)) => assert_eq!(m, "boom"),
        other => panic!("unexpected {:?}", other),
    }
    let err2 = obj(vec![("type", s("error"))]);
    match parse_daemon_message(&err2) {
        Some(DaemonMessage::Error(m)) => assert_eq!(m, "unknown"),
        other => panic!("unexpected {:?}", other),
    }
    let status = obj(vec![("type", s("result")), ("data", obj(vec![("kind", s("status"))]))]);
    assert!(parse_daemon_message(&status).is_none());
    assert!(parse_daemon_message(&Json::Null).is_none());
    assert!(parse_daemon_message(&obj(vec![("type", s("other"))])).is_none());
}

#[test]
fn session_numbers_requests_from_one() {
    let mut session = ClientSession::new();
    assert_eq!(
        session.opening_request(),
        "{\"method\":\"get_items\",\"id\":1,\"search\":null,\"limit\":100,\"offset\":0}\n"
    );
    assert_eq!(session.request(&GuiCommand::ClearHistory), "{\"method\":\"clear_history\",\"id\":2}\n");
    assert_eq!(
        session.request(&GuiCommand::DeleteItem(4)),
        "{\"method\":\"delete_item\",\"id\":3,\"item_id\":4}\n"
    );
}

#[test]
fn search_control_characters_stay_on_the_line() {
    let line = get_items_request(2, Some("a\nb\tc\u{1}\r"), 100, 0);
    assert_eq!(line, "{\"method\":\"get_items\",\"id\":2,\"search\":\"a\\nb\\tc\\u0001\\r\",\"limit\":100,\"offset\":0}\n");
    assert_eq!(line.matches('\n').count(), 1);
    assert!(line.ends_with('\n'));
    let v: serde_json::Value = serde_json::from_str(line.trim_end()).unwrap();
    assert_eq!(v["search"], "a\nb\tc\u{1}\r");
}

#[test]
fn reconnecting_after_a_lost_session() {
    assert!(matches!(after_session(false), LinkAction::Stop));
    match after_session(true) {
        LinkAction::Reconnect { notice: DaemonMessage::Disconnected, delay_ms } => assert_eq!(delay_ms, 2000),
        other => panic!("unexpected {:?}", other),
    }
}
