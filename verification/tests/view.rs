use clypse::client::{DaemonMessage, GuiCommand};
use clypse::db::ClipItem;
use clypse::tray::TrayAction;
use clypse::view::{
    keep_waiting_for_socket, AppAction, KeyOutcome, WindowKey,
    paste_commands, row_decor, search_command, RowPrefix, current_search, notice_for, row_preview, status_text, truncate_chars, Activation, ClypseWindow,
    ShowAction,
};

fn item(id: i64, content: Option<&str>, blob: Option<&str>, mime: &str, fav: bool) -> ClipItem {
    ClipItem {
        id,
        hash: format!("h{}", id),
        content: content.map(str::to_string),
        blob_path: blob.map(str::to_string),
        mime_type: mime.to_string(),
        byte_size: 1,
        is_favorite: fav,
        is_pinned: false,
        created_at: 0,
        last_used: 0,
        use_count: 1,
    }
}

fn loaded(items: Vec<ClipItem>) -> ClypseWindow {
    let mut v = ClypseWindow::new();
    let total = items.len() as i64;
    v.handle_daemon_message(DaemonMessage::Items { items, total }, None);
    v
}

#[test]
fn status_lines() {
    let items = vec![item(1, Some("a"), None, "text/plain", true), item(2, Some("b"), None, "text/plain", false)];
    assert_eq!(status_text(false, 10, &items), "10 items · 1 ★");
    assert_eq!(status_text(true, 10, &items), "1 favorites");
    assert_eq!(status_text(false, 2, &vec![item(2, Some("b"), None, "text/plain", false)]), "2 items");
}

#[test]
fn items_message_replaces_the_list() {
    let mut v = ClypseWindow::new();
    let up = v.handle_daemon_message(
        DaemonMessage::Items { items: vec![item(1, Some("a"), None, "text/plain", true)], total: 40 },
        None,
    );
    assert_eq!(up.status.as_deref(), Some("40 items · 1 ★"));
    assert!(up.toast.is_none());
    assert!(up.command.is_none());
    assert_eq!(v.visible().len(), 1);
}

#[test]
fn added_entries_go_first() {
    let mut v = loaded(vec![item(1, Some("a"), None, "text/plain", false)]);
    let up = v.handle_daemon_message(DaemonMessage::ItemAdded(item(2, Some("b"), None, "text/plain", false)), None);
    assert_eq!(up.status.as_deref(), Some("2 items"));
    assert_eq!(v.visible().iter().map(|i| i.id).collect::<Vec<_>>(), vec![2, 1]);
}

#[test]
fn deleted_entries_leave_the_list() {
    let mut v = loaded(vec![item(1, Some("a"), None, "text/plain", false), item(2, Some("b"), None, "text/plain", false)]);
    v.handle_daemon_message(DaemonMessage::ItemDeleted { item_id: 1 }, None);
    assert_eq!(v.visible().iter().map(|i| i.id).collect::<Vec<_>>(), vec![2]);
    assert!(matches!(v.activate(1), Activation::Nothing));
}

#[test]
fn favorite_filter_and_toggles() {
    let mut v = loaded(vec![item(1, Some("a"), None, "text/plain", false), item(2, Some("b"), None, "text/plain", false)]);
    v.handle_daemon_message(DaemonMessage::FavoriteToggled { item_id: 2, is_favorite: true }, None);
    assert_eq!(v.set_favorites_only(true), "1 favorites");
    assert_eq!(v.visible().iter().map(|i| i.id).collect::<Vec<_>>(), vec![2]);
    assert_eq!(v.set_favorites_only(false), "2 items · 1 ★");
    assert_eq!(v.visible().len(), 2);
    v.handle_daemon_message(DaemonMessage::PinnedToggled { item_id: 1, is_pinned: true }, None);
    assert!(v.visible()[0].is_pinned);
}

#[test]
fn clear_disconnect_error_and_refresh() {
    let mut v = loaded(vec![item(1, Some("a"), None, "text/plain", false)]);
    let up = v.handle_daemon_message(DaemonMessage::HistoryCleared, None);
    assert_eq!(up.status.as_deref(), Some("History cleared"));
    assert_eq!(up.toast.as_deref(), Some("History cleared"));
    assert!(v.visible().is_empty());
    let up = v.handle_daemon_message(DaemonMessage::Disconnected, None);
    assert_eq!(up.status.as_deref(), Some("⚠ Daemon disconnected. Reconnecting…"));
    let up = v.handle_daemon_message(DaemonMessage::Error("bad".into()), None);
    assert_eq!(up.status.as_deref(), Some("Error: bad"));
    let up = v.handle_daemon_message(DaemonMessage::ItemUpdated, Some("q".into()));
    assert!(up.status.is_none());
    match up.command {
        Some(GuiCommand::GetItems { search, limit, offset }) => {
            assert_eq!(search.as_deref(), Some("q"));
            assert_eq!(limit, 100);
            assert_eq!(offset, 0);
        }
        other => panic!("unexpected {:?}", other),
    }
}

#[test]
fn activating_rows() {
    let v = loaded(vec![
        item(1, Some("text"), None, "text/plain", false),
        item(2, None, Some("/img/a.png"), "image/png", false),
        item(3, None, None, "application/octet-stream", false),
    ]);
    match v.activate(1) {
        Activation::CopyText(t) => assert_eq!(t, "text"),
        other => panic!("unexpected {:?}", other),
    }
    match v.activate(2) {
        Activation::CopyImage { path, mime_type } => {
            assert_eq!(path, "/img/a.png");
            assert_eq!(mime_type, "image/png");
        }
        other => panic!("unexpected {:?}", other),
    }
    assert!(matches!(v.activate(3), Activation::Binary));
    assert!(matches!(v.activate(0), Activation::Nothing));
    assert!(matches!(v.activate(9), Activation::Nothing));
}

#[test]
fn activation_notices() {
    assert_eq!(notice_for(&Activation::CopyText("x".into()), true), Some("Copied — press Ctrl+V to paste"));
    let img = Activation::CopyImage { path: "p".into(), mime_type: "image/png".into() };
    assert_eq!(notice_for(&img, true), Some("Image copied to clipboard"));
    assert_eq!(notice_for(&img, false), Some("Image file missing — recopy to restore"));
    assert_eq!(notice_for(&Activation::Binary, true), Some("Binary content — cannot copy"));
    assert_eq!(notice_for(&Activation::Nothing, true), None);
}

#[test]
fn row_titles() {
    assert_eq!(row_preview(&item(1, Some("  first line  \r\nsecond"), None, "text/plain", false)), "first line");
    assert_eq!(row_preview(&item(1, None, Some("x"), "image/png", false)), "PNG");
    assert_eq!(row_preview(&item(1, None, None, "application/pdf", false)), "[binary]");
    let long = "x".repeat(100);
    let title = row_preview(&item(1, Some(&long), None, "text/plain", false));
    assert_eq!(title.chars().count(), 81);
    assert!(title.ends_with('…'));
}

#[test]
fn truncation_and_search() {
    assert_eq!(truncate_chars("héllo", 3), "hél…");
    assert_eq!(truncate_chars("abc", 3), "abc");
    assert_eq!(current_search(""), None);
    assert_eq!(current_search(" a"), Some(" a".to_string()));
}

#[test]
fn showing_from_the_tray() {
    let w = ClypseWindow::new();
    assert!(matches!(w.show_at_cursor(true), ShowAction::Hide));
    match w.show_at_cursor(false) {
        ShowAction::Present(GuiCommand::GetItems { search, limit, offset }) => {
            assert!(search.is_none());
            assert_eq!(limit, 100);
            assert_eq!(offset, 0);
        }
        other => panic!("unexpected {:?}", other),
    }
}

#[test]
fn row_layout() {
    let mut it = item(4, None, Some("/img/a.png"), "image/png", true);
    it.is_pinned = true;
    let d = row_decor(&it);
    assert_eq!(d.prefix, RowPrefix::Thumbnail("/img/a.png".into()));
    assert_eq!(d.title, "PNG");
    assert_eq!(d.kind, "PNG");
    assert!(d.pinned_badge);
    assert_eq!(d.favorite_icon, "starred-symbolic");
    assert_eq!(d.favorite_tooltip, "Remove from favorites");
    assert!(matches!(d.favorite_command, GuiCommand::ToggleFavorite(4)));
    assert!(matches!(d.delete_command, GuiCommand::DeleteItem(4)));
    let d = row_decor(&item(5, None, None, "image/gif", false));
    assert_eq!(d.prefix, RowPrefix::Icon("image-x-generic-symbolic"));
    assert_eq!(d.favorite_icon, "non-starred-symbolic");
    assert_eq!(d.favorite_tooltip, "Add to favorites — never auto-deleted");
    let d = row_decor(&item(6, Some("{}"), None, "text/json", false));
    assert_eq!(d.prefix, RowPrefix::Icon("text-x-script-symbolic"));
    assert_eq!(d.kind, "JSON");
    assert!(!d.pinned_badge);
}

#[test]
fn search_field_commands() {
    match search_command("") {
        GuiCommand::GetItems { search, limit, offset } => {
            assert!(search.is_none());
            assert_eq!((limit, offset), (100, 0));
        }
        other => panic!("unexpected {:?}", other),
    }
    assert!(matches!(search_command("ab"), GuiCommand::GetItems { search: Some(ref s), .. } if s == "ab"));
}

#[test]
fn paste_programs_in_order() {
    let cmds = paste_commands();
    let names: Vec<&str> = cmds.iter().map(|c| c.program).collect();
    assert_eq!(names, vec!["wtype", "ydotool", "xdotool"]);
    assert_eq!(cmds[0].args, vec!["-M", "ctrl", "-k", "v", "-m", "ctrl"]);
    assert_eq!(cmds[1].args, vec!["key", "29:1", "47:1", "47:0", "29:0"]);
    assert_eq!(cmds[2].args, vec!["key", "--clearmodifiers", "ctrl+v"]);
}

#[test]
fn window_start_and_keys() {
    assert_eq!(ClypseWindow::title(), "Clypse");
    assert_eq!(ClypseWindow::initial_status(), "Connecting to daemon…");
    let w = ClypseWindow::new();
    assert_eq!(w.key_pressed(WindowKey::Escape), KeyOutcome::Hide);
    assert_eq!(w.key_pressed(WindowKey::Other), KeyOutcome::Pass);
    assert_eq!(w.stop_search(), KeyOutcome::Hide);
}

#[test]
fn tray_actions_and_startup_wait() {
    let w = ClypseWindow::new();
    assert!(matches!(w.on_tray(TrayAction::Quit, true), AppAction::Quit));
    assert!(matches!(w.on_tray(TrayAction::Show, true), AppAction::Window(ShowAction::Hide)));
    assert!(matches!(
        w.on_tray(TrayAction::Show, false),
        AppAction::Window(ShowAction::Present(GuiCommand::GetItems { search: None, limit: 100, offset: 0 }))
    ));
    assert!(keep_waiting_for_socket(false, 0));
    assert!(keep_waiting_for_socket(false, 29));
    assert!(!keep_waiting_for_socket(false, 30));
    assert!(!keep_waiting_for_socket(true, 0));
}
