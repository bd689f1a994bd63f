use clypse::capture::SessionType;
use clypse::service::{monitor_fallback, notify_systemd, notify_systemd_ready, notify_watchdog};
use clypse::tray::{tray_activate, tray_icon_name, tray_id, tray_menu, tray_title, TrayAction, TrayEntry};

#[test]
fn systemd_notices() {
    assert!(notify_systemd_ready(None).is_none());
    let n = notify_systemd_ready(Some("/run/systemd/notify")).unwrap();
    assert_eq!(n.socket, "/run/systemd/notify");
    assert_eq!(n.message, "READY=1");
    assert_eq!(notify_watchdog(Some("@sock")).unwrap().message, "WATCHDOG=1");
    assert!(notify_watchdog(None).is_none());
    assert_eq!(notify_systemd(Some("s"), "STOPPING=1").unwrap().message, "STOPPING=1");
}

#[test]
fn monitor_fallbacks() {
    assert_eq!(monitor_fallback(SessionType::Wayland), Some(SessionType::X11));
    assert_eq!(monitor_fallback(SessionType::X11), None);
}

#[test]
fn tray_identity_and_menu() {
    assert_eq!(tray_id(), "io.github.clypse.Clypse");
    assert_eq!(tray_icon_name(), "io.github.clypse.Clypse");
    assert_eq!(tray_title(), "Clypse");
    assert_eq!(tray_activate(), TrayAction::Show);
    let menu = tray_menu();
    assert_eq!(menu.len(), 3);
    assert!(matches!(&menu[0], TrayEntry::Item { label, action: TrayAction::Show } if label == "Open Clypse"));
    assert!(matches!(&menu[1], TrayEntry::Separator));
    assert!(matches!(&menu[2], TrayEntry::Item { label, action: TrayAction::Quit } if label == "Quit"));
}
