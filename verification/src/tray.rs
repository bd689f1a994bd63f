//! The panel (status notifier) icon of the window: its identity and its menu.
use vstd::prelude::*;

verus! {

/// What the icon asks the window to do.
#[derive(Debug, Clone, Copy, PartialEq, Eq)]
pub enum TrayAction {
    /// Show the window.
    Show,
    /// Quit the application.
    Quit,
}

/// An entry of the icon's menu.
#[derive(Debug)]
pub enum TrayEntry {
    Item { label: String, action: TrayAction },
    Separator,
}

/// The icon's identifier.
pub fn tray_id() -> (r: &'static str)
    ensures
        r@ == "io.github.clypse.Clypse"@,
{
    "io.github.clypse.Clypse"
}

/// The icon's theme name.
pub fn tray_icon_name() -> (r: &'static str)
    ensures
        r@ == "io.github.clypse.Clypse"@,
{
    "io.github.clypse.Clypse"
}

/// The icon's title.
pub fn tray_title() -> (r: &'static str)
    ensures
        r@ == "Clypse"@,
{
    "Clypse"
}

/// What a click on the icon itself does: show the window.
pub fn tray_activate() -> (r: TrayAction)
    ensures
        r == TrayAction::Show,
{
    TrayAction::Show
}

/// The icon's menu: "Open Clypse" (show), a separator, "Quit".
pub fn tray_menu() -> (r: Vec<TrayEntry>)
    ensures
        r@.len() == 3,
        (r@[0] matches TrayEntry::Item { label, action } && label@ == "Open Clypse"@ && action == TrayAction::Show),
        r@[1] is Separator,
        (r@[2] matches TrayEntry::Item { label, action } && label@ == "Quit"@ && action == TrayAction::Quit),
{
    let mut menu: Vec<TrayEntry> = Vec::new();
    menu.push(TrayEntry::Item { label: "Open Clypse".to_owned(), action: TrayAction::Show });
    menu.push(TrayEntry::Separator);
    menu.push(TrayEntry::Item { label: "Quit".to_owned(), action: TrayAction::Quit });
    menu
}

} // verus!
