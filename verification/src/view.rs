//! The history window's state: the entries it shows, how each daemon message
//! changes them, the status line, and the text of each row.
use vstd::prelude::*;

use crate::capture::index_of;
use crate::client::{DaemonMessage, GuiCommand, MessageView};
use crate::db::{opt_str_view, rows_of, ClipItem, ClipRow};
use crate::mime::{friendly_mime, friendly_name, icon_name, mime_to_icon};
use crate::text::{
    chars_of, has_prefix, int_text, push_i64, push_str, push_u64, slice_chars, str_starts_with, string_from, string_of, trim,
    trim_chars,
};
use crate::tray::TrayAction;

verus! {

// ─── Status line ──────────────────────────────────────────────────────────────

pub open spec fn is_favorite_row() -> spec_fn(ClipRow) -> bool {
    |r: ClipRow| r.is_favorite
}

/// How many of the rows are favorites.
pub open spec fn favorite_count(s: Seq<ClipRow>) -> nat {
    s.filter(is_favorite_row()).len()
}

/// The status line: the number of favorites when only favorites are shown;
/// otherwise the total, followed by the number of favorites when there are any.
pub open spec fn status_line(favorites_only: bool, total: i64, s: Seq<ClipRow>) -> Seq<char> {
    let favs = favorite_count(s) as int;
    if favorites_only {
        int_text(favs) + " favorites"@
    } else if favs > 0 {
        int_text(total as int) + " items"@ + " · "@ + int_text(favs) + " ★"@
    } else {
        int_text(total as int) + " items"@
    }
}

/// Counts the favorites among `items`.
fn count_favorites(items: &Vec<ClipItem>) -> (r: usize)
    ensures
        r == favorite_count(rows_of(items@)),
{
    let ghost s = rows_of(items@);
    let mut n: usize = 0;
    let mut i: usize = 0;
    while i < items.len()
        invariant
            i <= items.len(),
            s == rows_of(items@),
            n == s.take(i as int).filter(is_favorite_row()).len(),
            n <= i,
        decreases items.len() - i,
    {
        proof {
            assert(s.take(i as int + 1) == s.take(i as int).push(s[i as int]));
            s.take(i as int).lemma_filter_push(s[i as int], is_favorite_row());
            assert(s[i as int] == items@[i as int]@);
        }
        if items[i].is_favorite {
            n = n + 1;
        }
        i += 1;
    }
    assert(s.take(s.len() as int) =~= s);
    n
}

/// Writes the status line for `items` with `total` entries in the history.
pub fn status_text(favorites_only: bool, total: i64, items: &Vec<ClipItem>) -> (r: String)
    ensures
        r@ == status_line(favorites_only, total, rows_of(items@)),
{
    let favs = count_favorites(items);
    let mut out: Vec<char> = Vec::new();
    if favorites_only {
        push_u64(&mut out, favs as u64);
        push_str(&mut out, " favorites");
    } else {
        push_i64(&mut out, total);
        push_str(&mut out, " items");
        if favs > 0 {
            push_str(&mut out, " · ");
            push_u64(&mut out, favs as u64);
            push_str(&mut out, " ★");
        }
    }
    let r = string_of(&out);
    assert(r@ =~= status_line(favorites_only, total, rows_of(items@)));
    r
}

// ─── The window's entries ─────────────────────────────────────────────────────

/// The position of the first row with id `id`, or the length when there is none.
pub open spec fn first_with_id(s: Seq<ClipRow>, id: i64) -> int
    decreases s.len(),
{
    if s.len() == 0 {
        0
    } else if s[0].id == id {
        0
    } else {
        1 + first_with_id(s.drop_first(), id)
    }
}

/// The rows with the favorite mark of the first row with id `id` set to `v`.
pub open spec fn with_favorite(s: Seq<ClipRow>, id: i64, v: bool) -> Seq<ClipRow> {
    let k = first_with_id(s, id);
    if k < s.len() {
        s.update(k, ClipRow { is_favorite: v, ..s[k] })
    } else {
        s
    }
}

/// The rows with the pinned mark of the first row with id `id` set to `v`.
pub open spec fn with_pinned(s: Seq<ClipRow>, id: i64, v: bool) -> Seq<ClipRow> {
    let k = first_with_id(s, id);
    if k < s.len() {
        s.update(k, ClipRow { is_pinned: v, ..s[k] })
    } else {
        s
    }
}

/// What the window does besides changing its entries.
#[derive(Debug)]
pub struct ViewUpdate {
    /// New text for the status line.
    pub status: Option<String>,
    /// A short notice to show.
    pub toast: Option<String>,
    /// A command to send to the daemon.
    pub command: Option<GuiCommand>,
}

/// The window's entries and filter.
pub struct ClypseWindow {
    items: Vec<ClipItem>,
    favorites_only: bool,
}

/// The entries after a message, given the entries before.
pub open spec fn rows_after(s: Seq<ClipRow>, m: MessageView) -> Seq<ClipRow> {
    match m {
        MessageView::Items { items, .. } => items,
        MessageView::ItemAdded(item) => seq![item] + s,
        MessageView::ItemDeleted { item_id } => s.filter(|r: ClipRow| r.id != item_id),
        MessageView::HistoryCleared => Seq::empty(),
        MessageView::FavoriteToggled { item_id, is_favorite } => with_favorite(s, item_id, is_favorite),
        MessageView::PinnedToggled { item_id, is_pinned } => with_pinned(s, item_id, is_pinned),
        _ => s,
    }
}

/// The status line after a message, if it changes: the entry count and
/// favorites after a change of entries; fixed texts for clearing, losing the
/// daemon and errors.
pub open spec fn status_after(favorites_only: bool, s: Seq<ClipRow>, m: MessageView) -> Option<Seq<char>> {
    let t = rows_after(s, m);
    match m {
        MessageView::Items { total, .. } => Some(status_line(favorites_only, total, t)),
        MessageView::HistoryCleared => Some("History cleared"@),
        MessageView::Disconnected => Some("⚠ Daemon disconnected. Reconnecting…"@),
        MessageView::Error(e) => Some("Error: "@ + e),
        MessageView::ItemUpdated => None,
        _ => Some(status_line(favorites_only, t.len() as i64, t)),
    }
}

pub open spec fn opt_text_view(o: Option<String>) -> Option<Seq<char>> {
    opt_str_view(o)
}

impl ClypseWindow {
    /// The entries, newest first as the daemon listed them.
    pub closed spec fn rows(&self) -> Seq<ClipRow> {
        rows_of(self.items@)
    }

    /// Whether only favorites are listed.
    pub closed spec fn favorites_only(&self) -> bool {
        self.favorites_only
    }

    /// An empty window listing everything.
    pub fn new() -> (r: ClypseWindow)
        ensures
            r.rows() == Seq::<ClipRow>::empty(),
            !r.favorites_only(),
    {
        let r = ClypseWindow { items: Vec::new(), favorites_only: false };
        assert(r.rows() =~= Seq::<ClipRow>::empty());
        r
    }

    /// The entries the list shows: all of them, or the favorites only.
    pub fn visible(&self) -> (r: Vec<ClipItem>)
        ensures
            rows_of(r@) == if self.favorites_only() { self.rows().filter(is_favorite_row()) } else { self.rows() },
    {
        let ghost s = self.rows();
        let mut out: Vec<ClipItem> = Vec::new();
        let mut i: usize = 0;
        while i < self.items.len()
            invariant
                i <= self.items.len(),
                s == self.rows(),
                rows_of(out@) == if self.favorites_only { s.take(i as int).filter(is_favorite_row()) } else { s.take(i as int) },
            decreases self.items.len() - i,
        {
            proof {
                assert(s.take(i as int + 1) == s.take(i as int).push(s[i as int]));
                s.take(i as int).lemma_filter_push(s[i as int], is_favorite_row());
                assert(s[i as int] == self.items@[i as int]@);
            }
            if !self.favorites_only || self.items[i].is_favorite {
                let ghost before = out@;
                out.push(self.items[i].duplicate());
                assert(rows_of(out@) =~= rows_of(before).push(s[i as int]));
            }
            i += 1;
        }
        assert(s.take(s.len() as int) =~= s);
        out
    }

    /// Lists only favorites, or everything; returns the new status line.
    pub fn set_favorites_only(&mut self, on: bool) -> (r: String)
        ensures
            final(self).favorites_only() == on,
            final(self).rows() == old(self).rows(),
            r@ == status_line(on, old(self).rows().len() as i64, old(self).rows()),
    {
        self.favorites_only = on;
        let total = self.items.len() as i64;
        status_text(on, total, &self.items)
    }

    /// The position of the first entry with id `id`, or the count when there is none.
    fn position_of(&self, id: i64) -> (r: usize)
        ensures
            r == first_with_id(self.rows(), id),
            r <= self.items.len(),
    {
        let ghost s = self.rows();
        let mut i: usize = 0;
        assert(s.skip(0) =~= s);
        while i < self.items.len() && self.items[i].id != id
            invariant
                i <= self.items.len(),
                s == self.rows(),
                first_with_id(s, id) == i + first_with_id(s.skip(i as int), id),
            decreases self.items.len() - i,
        {
            assert(s.skip(i as int)[0] == self.items@[i as int]@);
            assert(s.skip(i as int).drop_first() =~= s.skip(i as int + 1));
            i += 1;
        }
        if i < self.items.len() {
            assert(s.skip(i as int)[0] == self.items@[i as int]@);
        } else {
            assert(s.skip(i as int).len() == 0);
        }
        i
    }

    /// Applies a daemon message: updates the entries and says what else to do.
    /// `search` is the text in the search field, used to reload after an entry
    /// is refreshed.
    pub fn handle_daemon_message(&mut self, msg: DaemonMessage, search: Option<String>) -> (r: ViewUpdate)
        ensures
            final(self).favorites_only() == old(self).favorites_only(),
            final(self).rows() == rows_after(old(self).rows(), msg@),
            opt_text_view(r.status) == status_after(old(self).favorites_only(), old(self).rows(), msg@),
            opt_text_view(r.toast) == if msg@ is HistoryCleared { Some("History cleared"@) } else { None },
            match r.command {
                Some(c) => (msg@ is ItemUpdated) && c == (GuiCommand::GetItems { search, limit: 100, offset: 0 }),
                None => !(msg@ is ItemUpdated),
            },
    {
        let ghost s0 = self.rows();
        let ghost m = msg@;
        match msg {
            DaemonMessage::Items { items, total } => {
                self.items = items;
                let status = status_text(self.favorites_only, total, &self.items);
                ViewUpdate { status: Some(status), toast: None, command: None }
            },
            DaemonMessage::ItemAdded(item) => {
                self.items.insert(0, item);
                assert(self.rows() =~= rows_after(s0, m));
                let total = self.items.len() as i64;
                let status = status_text(self.favorites_only, total, &self.items);
                ViewUpdate { status: Some(status), toast: None, command: None }
            },
            DaemonMessage::ItemDeleted { item_id } => {
                let mut kept: Vec<ClipItem> = Vec::new();
                let mut i: usize = 0;
                while i < self.items.len()
                    invariant
                        i <= self.items.len(),
                        s0 == self.rows(),
                        rows_of(kept@) == s0.take(i as int).filter(|r: ClipRow| r.id != item_id),
                    decreases self.items.len() - i,
                {
                    proof {
                        assert(s0.take(i as int + 1) == s0.take(i as int).push(s0[i as int]));
                        s0.take(i as int).lemma_filter_push(s0[i as int], |r: ClipRow| r.id != item_id);
                        assert(s0[i as int] == self.items@[i as int]@);
                    }
                    if self.items[i].id != item_id {
                        let ghost before = kept@;
                        kept.push(self.items[i].duplicate());
                        assert(rows_of(kept@) =~= rows_of(before).push(s0[i as int]));
                    }
                    i += 1;
                }
                assert(s0.take(s0.len() as int) =~= s0);
                self.items = kept;
                let total = self.items.len() as i64;
                let status = status_text(self.favorites_only, total, &self.items);
                ViewUpdate { status: Some(status), toast: None, command: None }
            },
            DaemonMessage::HistoryCleared => {
                self.items = Vec::new();
                assert(self.rows() =~= Seq::<ClipRow>::empty());
                ViewUpdate {
                    status: Some(string_from("History cleared")),
                    toast: Some(string_from("History cleared")),
                    command: None,
                }
            },
            DaemonMessage::Disconnected => {
                ViewUpdate { status: Some(string_from("⚠ Daemon disconnected. Reconnecting…")), toast: None, command: None }
            },
            DaemonMessage::Error(e) => {
                let status = string_from("Error: ").concat(e.as_str());
                ViewUpdate { status: Some(status), toast: None, command: None }
            },
            DaemonMessage::FavoriteToggled { item_id, is_favorite } => {
                let k = self.position_of(item_id);
                if k < self.items.len() {
                    let mut it = self.items[k].duplicate();
                    it.is_favorite = is_favorite;
                    self.items.set(k, it);
                }
                assert(self.rows() =~= rows_after(s0, m));
                let total = self.items.len() as i64;
                let status = status_text(self.favorites_only, total, &self.items);
                ViewUpdate { status: Some(status), toast: None, command: None }
            },
            DaemonMessage::PinnedToggled { item_id, is_pinned } => {
                let k = self.position_of(item_id);
                if k < self.items.len() {
                    let mut it = self.items[k].duplicate();
                    it.is_pinned = is_pinned;
                    self.items.set(k, it);
                }
                assert(self.rows() =~= rows_after(s0, m));
                let total = self.items.len() as i64;
                let status = status_text(self.favorites_only, total, &self.items);
                ViewUpdate { status: Some(status), toast: None, command: None }
            },
            DaemonMessage::ItemUpdated => {
                ViewUpdate { status: None, toast: None, command: Some(GuiCommand::GetItems { search, limit: 100, offset: 0 }) }
            },
        }
    }
}

/// What activating a row of the list does.
#[derive(Debug)]
pub enum Activation {
    /// Nothing: the row carries no entry id, or no entry has it.
    Nothing,
    /// Put this text on the clipboard, hide the window and paste it.
    CopyText(String),
    /// Read the image file at `path` and put it on the clipboard as `mime_type`.
    CopyImage { path: String, mime_type: String },
    /// Binary content with no file behind it: it cannot be copied.
    Binary,
}

/// The notice activating a row shows: for text, for an image that was read, an
/// image whose file could not be read, and binary content.
pub open spec fn activation_notice(a: Activation, file_read: bool) -> Option<Seq<char>> {
    match a {
        Activation::Nothing => None,
        Activation::CopyText(_) => Some("Copied — press Ctrl+V to paste"@),
        Activation::CopyImage { .. } => if file_read {
            Some("Image copied to clipboard"@)
        } else {
            Some("Image file missing — recopy to restore"@)
        },
        Activation::Binary => Some("Binary content — cannot copy"@),
    }
}

/// Chooses the notice for an activation.
pub fn notice_for(a: &Activation, file_read: bool) -> (r: Option<&'static str>)
    ensures
        match r {
            Some(t) => activation_notice(*a, file_read) == Some(t@),
            None => activation_notice(*a, file_read) is None,
        },
{
    match a {
        Activation::Nothing => None,
        Activation::CopyText(_) => Some("Copied — press Ctrl+V to paste"),
        Activation::CopyImage { .. } => if file_read {
            Some("Image copied to clipboard")
        } else {
            Some("Image file missing — recopy to restore")
        },
        Activation::Binary => Some("Binary content — cannot copy"),
    }
}

impl ClypseWindow {
    /// What activating the row of entry `item_id` does (id 0 marks a row with no
    /// entry): the first entry with that id decides: its text is copied, else its
    /// image file, else nothing can be.
    pub fn activate(&self, item_id: i64) -> (r: Activation)
        ensures
            ({
                let s = self.rows();
                let k = first_with_id(s, item_id);
                if item_id == 0 || k >= s.len() {
                    r is Nothing
                } else {
                    match s[k].content {
                        Some(t) => r matches Activation::CopyText(c) && c@ == t,
                        None => match s[k].blob_path {
                            Some(p) => r matches Activation::CopyImage { path, mime_type }
                                && path@ == p && mime_type@ == s[k].mime_type,
                            None => r is Binary,
                        },
                    }
                }
            }),
    {
        if item_id == 0 {
            return Activation::Nothing;
        }
        let k = self.position_of(item_id);
        if k >= self.items.len() {
            return Activation::Nothing;
        }
        let item = &self.items[k];
        assert(self.rows()[k as int] == item@);
        match &item.content {
            Some(text) => Activation::CopyText(text.clone()),
            None => match &item.blob_path {
                Some(path) => Activation::CopyImage { path: path.clone(), mime_type: item.mime_type.clone() },
                None => Activation::Binary,
            },
        }
    }
}

/// The position `first_with_id` gives lies within the rows or just past them.
proof fn lemma_first_with_id_bounds(s: Seq<ClipRow>, id: i64)
    ensures
        0 <= first_with_id(s, id) <= s.len(),
    decreases s.len(),
{
    if s.len() > 0 && s[0].id != id {
        lemma_first_with_id_bounds(s.drop_first(), id);
    }
}

/// After a message that changes the entries, the status line counts the
/// entries as they are afterwards: one more after an addition, those without
/// the id after a deletion, as many as before after a mark changes.
pub proof fn law_status_counts_entries_after(favorites_only: bool, s: Seq<ClipRow>, m: MessageView)
    ensures
        m matches MessageView::ItemAdded(x) ==> status_after(favorites_only, s, m)
            == Some(status_line(favorites_only, (s.len() + 1) as i64, seq![x] + s)),
        m matches MessageView::ItemDeleted { item_id } ==> status_after(favorites_only, s, m) == Some(status_line(
            favorites_only,
            s.filter(|r: ClipRow| r.id != item_id).len() as i64,
            s.filter(|r: ClipRow| r.id != item_id),
        )),
        m matches MessageView::FavoriteToggled { item_id, is_favorite } ==> status_after(favorites_only, s, m)
            == Some(status_line(favorites_only, s.len() as i64, with_favorite(s, item_id, is_favorite))),
        m matches MessageView::PinnedToggled { item_id, is_pinned } ==> status_after(favorites_only, s, m)
            == Some(status_line(favorites_only, s.len() as i64, with_pinned(s, item_id, is_pinned))),
{
    match m {
        MessageView::FavoriteToggled { item_id, is_favorite } => {
            lemma_first_with_id_bounds(s, item_id);
            assert(with_favorite(s, item_id, is_favorite).len() == s.len());
        },
        MessageView::PinnedToggled { item_id, is_pinned } => {
            lemma_first_with_id_bounds(s, item_id);
            assert(with_pinned(s, item_id, is_pinned).len() == s.len());
        },
        _ => {},
    }
}

/// After a deletion message no entry of the window has the deleted id.
pub proof fn law_view_delete_removes(s: Seq<ClipRow>, id: i64)
    ensures
        !crate::db::has_id(rows_after(s, (MessageView::ItemDeleted { item_id: id })), id),
{
    crate::db::law_deleted_absent(s, id);
}

/// A program run to paste, with its arguments.
#[derive(Debug)]
pub struct PasteCommand {
    pub program: &'static str,
    pub args: Vec<&'static str>,
}

/// The programs tried, in order, to press Ctrl+V after a copy, until one runs
/// successfully: `wtype` (Wayland virtual keyboard), `ydotool` (uinput), and
/// `xdotool` (X11).
pub fn paste_commands() -> (r: Vec<PasteCommand>)
    ensures
        r@.len() == 3,
        r@[0].program@ == "wtype"@,
        r@[0].args@.map_values(|a: &'static str| a@) == seq!["-M"@, "ctrl"@, "-k"@, "v"@, "-m"@, "ctrl"@],
        r@[1].program@ == "ydotool"@,
        r@[1].args@.map_values(|a: &'static str| a@) == seq!["key"@, "29:1"@, "47:1"@, "47:0"@, "29:0"@],
        r@[2].program@ == "xdotool"@,
        r@[2].args@.map_values(|a: &'static str| a@) == seq!["key"@, "--clearmodifiers"@, "ctrl+v"@],
{
    let wtype = vec!["-M", "ctrl", "-k", "v", "-m", "ctrl"];
    let ydotool = vec!["key", "29:1", "47:1", "47:0", "29:0"];
    let xdotool = vec!["key", "--clearmodifiers", "ctrl+v"];
    assert(wtype@.map_values(|a: &'static str| a@) =~= seq!["-M"@, "ctrl"@, "-k"@, "v"@, "-m"@, "ctrl"@]);
    assert(ydotool@.map_values(|a: &'static str| a@) =~= seq!["key"@, "29:1"@, "47:1"@, "47:0"@, "29:0"@]);
    assert(xdotool@.map_values(|a: &'static str| a@) =~= seq!["key"@, "--clearmodifiers"@, "ctrl+v"@]);
    vec![
        PasteCommand { program: "wtype", args: wtype },
        PasteCommand { program: "ydotool", args: ydotool },
        PasteCommand { program: "xdotool", args: xdotool },
    ]
}

// ─── Row text ─────────────────────────────────────────────────────────────────

/// The first line of `s`, without its line ending (`str::lines().next()`, or
/// empty for an empty string).
pub open spec fn first_line(s: Seq<char>) -> Seq<char> {
    let i = index_of(s, '\n');
    let l = s.take(i);
    if i < s.len() && l.len() > 0 && l.last() == '\r' {
        l.drop_last()
    } else {
        l
    }
}

/// `s` cut to `max` characters, with an ellipsis when anything was cut.
pub open spec fn truncated(s: Seq<char>, max: nat) -> Seq<char> {
    if s.len() > max {
        s.take(max as int) + "…"@
    } else {
        s
    }
}

/// The first line of `cs`.
pub fn first_line_of(cs: &Vec<char>) -> (r: Vec<char>)
    ensures
        r@ == first_line(cs@),
{
    let i = crate::capture::find_char(cs, '\n');
    let l = slice_chars(cs, 0, i);
    assert(l@ =~= cs@.take(i as int));
    if i < cs.len() && l.len() > 0 && l[l.len() - 1] == '\r' {
        let r = slice_chars(&l, 0, l.len() - 1);
        assert(r@ =~= l@.drop_last());
        r
    } else {
        l
    }
}

/// Cuts `s` to `max` characters, adding an ellipsis when anything was cut.
pub fn truncate_chars(s: &str, max: usize) -> (r: String)
    ensures
        r@ == truncated(s@, max as nat),
{
    let cs = chars_of(s);
    if cs.len() > max {
        let mut head = slice_chars(&cs, 0, max);
        push_str(&mut head, "…");
        assert(head@ =~= s@.take(max as int) + "…"@);
        string_of(&head)
    } else {
        string_from(s)
    }
}

/// The title of a row: the type's name for an image, otherwise the first line
/// of the text (or `[binary]`), trimmed and cut to 80 characters.
pub open spec fn row_title(r: ClipRow) -> Seq<char> {
    if has_prefix(r.mime_type, "image/"@) {
        friendly_name(r.mime_type)
    } else {
        truncated(trim(first_line(match r.content { Some(c) => c, None => "[binary]"@ })), 80)
    }
}

/// Writes the title of an entry's row.
pub fn row_preview(item: &ClipItem) -> (r: String)
    ensures
        r@ == row_title(item@),
{
    if str_starts_with(item.mime_type.as_str(), "image/") {
        friendly_mime(item.mime_type.as_str())
    } else {
        let raw = match &item.content {
            Some(c) => chars_of(c.as_str()),
            None => chars_of("[binary]"),
        };
        let line = trim_chars(&first_line_of(&raw));
        let text = string_of(&line);
        truncate_chars(text.as_str(), 80)
    }
}

/// What stands before a row's title.
#[derive(Debug, PartialEq, Eq)]
pub enum RowPrefix {
    /// The image file itself, as a thumbnail.
    Thumbnail(String),
    /// A themed icon.
    Icon(&'static str),
}

/// Everything a row of the list shows besides the entry's size.
#[derive(Debug)]
pub struct RowDecor {
    pub prefix: RowPrefix,
    pub title: String,
    /// The type's short name, first in the subtitle.
    pub kind: String,
    /// Whether the pinned badge shows.
    pub pinned_badge: bool,
    pub favorite_icon: &'static str,
    pub favorite_tooltip: &'static str,
    /// What the star button sends.
    pub favorite_command: GuiCommand,
    /// What the delete button sends.
    pub delete_command: GuiCommand,
}

/// The file a row shows as a thumbnail: an image's own file, when it has one.
/// Other rows show an icon (a generic image icon for an image without a file).
pub open spec fn thumbnail_of(r: ClipRow) -> Option<Seq<char>> {
    if has_prefix(r.mime_type, "image/"@) {
        match r.blob_path {
            Some(p) => Some(p),
            None => None,
        }
    } else {
        None
    }
}

/// Lays out the row of an entry.
pub fn row_decor(item: &ClipItem) -> (r: RowDecor)
    ensures
        match r.prefix {
            RowPrefix::Thumbnail(p) => thumbnail_of(item@) == Some(p@),
            RowPrefix::Icon(name) => thumbnail_of(item@) is None && name@ == if has_prefix(item.mime_type@, "image/"@) {
                "image-x-generic-symbolic"@
            } else {
                icon_name(item.mime_type@)
            },
        },
        r.title@ == row_title(item@),
        r.kind@ == friendly_name(item.mime_type@),
        r.pinned_badge == item.is_pinned,
        r.favorite_icon@ == if item.is_favorite { "starred-symbolic"@ } else { "non-starred-symbolic"@ },
        r.favorite_tooltip@ == if item.is_favorite {
            "Remove from favorites"@
        } else {
            "Add to favorites — never auto-deleted"@
        },
        r.favorite_command == (GuiCommand::ToggleFavorite(item.id)),
        r.delete_command == (GuiCommand::DeleteItem(item.id)),
{
    let prefix = if str_starts_with(item.mime_type.as_str(), "image/") {
        match &item.blob_path {
            Some(p) => RowPrefix::Thumbnail(p.clone()),
            None => RowPrefix::Icon("image-x-generic-symbolic"),
        }
    } else {
        RowPrefix::Icon(mime_to_icon(item.mime_type.as_str()))
    };
    RowDecor {
        prefix,
        title: row_preview(item),
        kind: friendly_mime(item.mime_type.as_str()),
        pinned_badge: item.is_pinned,
        favorite_icon: if item.is_favorite { "starred-symbolic" } else { "non-starred-symbolic" },
        favorite_tooltip: if item.is_favorite { "Remove from favorites" } else { "Add to favorites — never auto-deleted" },
        favorite_command: GuiCommand::ToggleFavorite(item.id),
        delete_command: GuiCommand::DeleteItem(item.id),
    }
}

/// The command a change of the search field sends: the first hundred entries
/// that match, or of everything when the field is empty.
pub fn search_command(text: &str) -> (r: GuiCommand)
    ensures
        (r matches GuiCommand::GetItems { search, limit, offset } && limit == 100 && offset == 0
            && opt_str_view(search) == if text@.len() == 0 { None } else { Some(text@) }),
{
    GuiCommand::GetItems { search: current_search(text), limit: 100, offset: 0 }
}

/// The search the window sends: none when the field is empty.
pub fn current_search(text: &str) -> (r: Option<String>)
    ensures
        opt_str_view(r) == if text@.len() == 0 { None } else { Some(text@) },
{
    if text.is_empty() {
        None
    } else {
        Some(string_from(text))
    }
}

/// What showing the window from the tray does.
#[derive(Debug)]
pub enum ShowAction {
    /// The window was visible: hide it.
    Hide,
    /// Reload the list, clear the search and show the window.
    Present(GuiCommand),
}

impl ClypseWindow {
    /// Toggles the window from the tray: hides it when `visible`; otherwise
    /// reloads the first hundred entries, clears the search and presents it.
    pub fn show_at_cursor(&self, visible: bool) -> (r: ShowAction)
        ensures
            visible ==> (r is Hide),
            !visible ==> (r matches ShowAction::Present(c) && c == (GuiCommand::GetItems { search: None, limit: 100, offset: 0 })),
    {
        if visible {
            ShowAction::Hide
        } else {
            ShowAction::Present(GuiCommand::GetItems { search: None, limit: 100, offset: 0 })
        }
    }
}


/// A key pressed in the window, as far as the window tells keys apart.
#[derive(Debug, Clone, Copy, PartialEq, Eq)]
pub enum WindowKey {
    Escape,
    Other,
}

/// What the window does with a key press or with the search field's
/// stop-search signal.
#[derive(Debug, Clone, Copy, PartialEq, Eq)]
pub enum KeyOutcome {
    /// Hide the window (the application keeps running) and stop the key there.
    Hide,
    /// Let the key go on to the focused widget.
    Pass,
}

/// What the application does with an action from its tray icon.
#[derive(Debug)]
pub enum AppAction {
    /// Show or hide the window.
    Window(ShowAction),
    /// Quit the application.
    Quit,
}

impl ClypseWindow {
    /// The window's title.
    pub fn title() -> (r: &'static str)
        ensures
            r@ == "Clypse"@,
    {
        "Clypse"
    }

    /// The status line before the daemon has answered.
    pub fn initial_status() -> (r: &'static str)
        ensures
            r@ == "Connecting to daemon…"@,
    {
        "Connecting to daemon…"
    }

    /// A key pressed anywhere in the window: Escape hides the window and sends
    /// nothing to the daemon; any other key goes on.
    pub fn key_pressed(&self, key: WindowKey) -> (r: KeyOutcome)
        ensures
            r == (if key == WindowKey::Escape { KeyOutcome::Hide } else { KeyOutcome::Pass }),
    {
        match key {
            WindowKey::Escape => KeyOutcome::Hide,
            WindowKey::Other => KeyOutcome::Pass,
        }
    }

    /// The search field's stop-search signal (Escape there): hides the window
    /// and sends nothing to the daemon.
    pub fn stop_search(&self) -> (r: KeyOutcome)
        ensures
            r == KeyOutcome::Hide,
    {
        KeyOutcome::Hide
    }

    /// An action from the tray icon: Show toggles the window as
    /// [`ClypseWindow::show_at_cursor`] does; Quit ends the application.
    pub fn on_tray(&self, action: TrayAction, visible: bool) -> (r: AppAction)
        ensures
            action == TrayAction::Quit ==> (r is Quit),
            action == TrayAction::Show && visible ==> (r matches AppAction::Window(a) && a is Hide),
            action == TrayAction::Show && !visible ==> (r matches AppAction::Window(a)
                && (a matches ShowAction::Present(c) && c == (GuiCommand::GetItems { search: None, limit: 100, offset: 0 }))),
    {
        match action {
            TrayAction::Show => AppAction::Window(self.show_at_cursor(visible)),
            TrayAction::Quit => AppAction::Quit,
        }
    }
}

/// How long the window waits between two looks for the daemon's socket, in
/// milliseconds.
pub const SOCKET_POLL_MS: u64 = 100;

/// Whether the window, starting up with no daemon socket, looks again: while
/// the socket is missing, at most 30 looks (three seconds) in all.
pub fn keep_waiting_for_socket(socket_exists: bool, looks: u32) -> (r: bool)
    ensures
        r == (!socket_exists && looks < 30),
{
    !socket_exists && looks < 30
}

} // verus!
