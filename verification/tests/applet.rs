use clypse::applet::{
    entries_from_json, fetch_request, item_entry, popup_hint, preview, reply_step, socket_path, AppletMessage,
    AppletState, AppletTask, ClipItem, ItemAction, ReplyStep, MAX_PREVIEW_CHARS,
};
use clypse::client::Json;

fn obj(entries: Vec<(&str, Json)>) -> Json {
    Json::Object(entries.into_iter().map(|(k, v)| (k.to_string(), v)).collect())
}

fn s(t: &str) -> Json {
    Json::Str(t.to_string())
}

fn entry(content: Option<&str>, mime: &str, fav: bool, pinned: bool) -> ClipItem {
    ClipItem { content: content.map(str::to_string), mime_type: mime.to_string(), is_favorite: fav, is_pinned: pinned }
}

#[test]
fn previews() {
    assert_eq!(preview("  hello world \n second"), "hello world");
    assert_eq!(preview("\n\n  x  "), "x");
    let long: String = "a".repeat(70);
    let p = preview(&long);
    assert_eq!(p.chars().count(), MAX_PREVIEW_CHARS + 1);
    assert!(p.ends_with('…'));
    assert_eq!(preview(&"b".repeat(64)), "b".repeat(64));
}

#[test]
fn entries_and_their_actions() {
    let (label, action) = item_entry(&entry(Some("hi"), "text/plain", false, true));
    assert_eq!(label, "📌 hi");
    assert_eq!(action, ItemAction::CopyText("hi".into()));
    let (label, action) = item_entry(&entry(Some("hi"), "text/plain", true, false));
    assert_eq!(label, "★ hi");
    assert_eq!(action, ItemAction::CopyText("hi".into()));
    let (label, action) = item_entry(&entry(None, "image/png", false, false));
    assert_eq!(label, "[ Image — open Clypse to copy ]");
    assert_eq!(action, ItemAction::OpenGui);
    let (_, action) = item_entry(&entry(Some("data"), "image/png", false, false));
    assert_eq!(action, ItemAction::OpenGui);
}

#[test]
fn empty_popup_hints() {
    assert_eq!(popup_hint(true, ""), "Loading…");
    assert_eq!(popup_hint(false, ""), "Clipboard history is empty");
    assert_eq!(popup_hint(false, "x"), "No results");
}

#[test]
fn panel_click_toggles_the_popup() {
    let mut st = AppletState::new();
    assert_eq!(st.update(AppletMessage::PanelPressed), AppletTask::OpenPopupAndLoad);
    assert!(st.loading);
    assert_eq!(st.update(AppletMessage::PopupOpened(5)), AppletTask::Nothing);
    assert_eq!(st.popup, Some(5));
    assert_eq!(st.update(AppletMessage::PanelPressed), AppletTask::DestroyPopup(5));
    assert_eq!(st.popup, None);
}

#[test]
fn search_and_loading() {
    let mut st = AppletState::new();
    assert_eq!(st.update(AppletMessage::SearchChanged("abc".into())), AppletTask::Load(Some("abc".into())));
    assert_eq!(st.search, "abc");
    assert!(st.loading);
    assert_eq!(st.update(AppletMessage::SearchChanged(String::new())), AppletTask::Load(None));
    assert_eq!(st.update(AppletMessage::ItemsLoaded(vec![entry(Some("x"), "text/plain", false, false)])), AppletTask::Nothing);
    assert!(!st.loading);
    assert_eq!(st.items.len(), 1);
}

#[test]
fn copy_and_open_close_the_popup() {
    let mut st = AppletState::new();
    st.update(AppletMessage::PopupOpened(3));
    assert_eq!(
        st.update(AppletMessage::CopyText("t".into())),
        AppletTask::CopyAndClose { text: "t".into(), close: Some(3) }
    );
    assert_eq!(st.popup, None);
    assert_eq!(st.update(AppletMessage::OpenGui), AppletTask::LaunchGui { close: None });
    st.update(AppletMessage::PopupOpened(4));
    assert_eq!(st.update(AppletMessage::PopupClosed(9)), AppletTask::Nothing);
    assert_eq!(st.popup, Some(4));
    st.update(AppletMessage::PopupClosed(4));
    assert_eq!(st.popup, None);
}

#[test]
fn fetch_request_lines() {
    assert_eq!(fetch_request(None), "{\"method\":\"get_items\",\"id\":1,\"search\":null,\"limit\":40,\"offset\":0}\n");
    assert_eq!(
        fetch_request(Some("a\"b\\c\nd\u{1}")),
        "{\"method\":\"get_items\",\"id\":1,\"search\":\"a\\\"b\\\\c\\nd\\u0001\",\"limit\":40,\"offset\":0}\n"
    );
    assert_eq!(
        fetch_request(Some("tab\there é")),
        "{\"method\":\"get_items\",\"id\":1,\"search\":\"tab\\there é\",\"limit\":40,\"offset\":0}\n"
    );
}

#[test]
fn reply_lines() {
    let item = obj(vec![("content", s("x")), ("mime_type", s("text/plain")), ("is_favorite", Json::Bool(true)), ("is_pinned", Json::Bool(false)), ("id", Json::Int(1))]);
    let reply = obj(vec![
        ("type", s("result")),
        ("id", Json::Int(1)),
        ("data", obj(vec![("kind", s("items")), ("items", Json::Array(vec![item]))])),
    ]);
    match reply_step(&reply) {
        ReplyStep::Items(items) => {
            assert_eq!(items.len(), 1);
            assert_eq!(items[0].content.as_deref(), Some("x"));
            assert!(items[0].is_favorite);
        }
        other => panic!("unexpected {:?}", other),
    }
    let err = obj(vec![("type", s("error")), ("message", s("no"))]);
    assert!(matches!(reply_step(&err), ReplyStep::DaemonError));
    let event = obj(vec![("type", s("event")), ("event", obj(vec![("kind", s("item_updated"))]))]);
    assert!(matches!(reply_step(&event), ReplyStep::Skip));
    let status = obj(vec![("type", s("result")), ("data", obj(vec![("kind", s("status"))]))]);
    assert!(matches!(reply_step(&status), ReplyStep::Skip));
}

#[test]
fn unreadable_item_lists_become_empty() {
    let good = obj(vec![("mime_type", s("text/plain")), ("is_favorite", Json::Bool(false)), ("is_pinned", Json::Bool(false))]);
    let list = entries_from_json(&Json::Array(vec![good]));
    assert_eq!(list.len(), 1);
    assert!(list[0].content.is_none());
    let bad = obj(vec![("mime_type", Json::Int(1))]);
    assert!(entries_from_json(&Json::Array(vec![bad])).is_empty());
    assert!(entries_from_json(&Json::Null).is_empty());
    let arr = Json::Array(vec![Json::Null, s("image/png"), Json::Bool(false), Json::Bool(true)]);
    let list = entries_from_json(&Json::Array(vec![arr]));
    assert!(list[0].is_pinned);
}

#[test]
fn applet_socket_path() {
    assert_eq!(socket_path(Some("/run/user/1000"), "/tmp"), "/run/user/1000/clypse/daemon.sock");
    assert_eq!(socket_path(None, "/tmp/"), "/tmp/clypse/daemon.sock");
}
