//! The panel applet: its state machine, and the text of each history entry in
//! its popup.
use vstd::prelude::*;

use crate::client::{lemma_concat_one_line, lemma_search_one_line, one_line, field, json_bool, json_quote, json_str, json_string, opt_text, Json};
use crate::config::{socket_file, Config};
use crate::db::{opt_ref_view, opt_str_view};
use crate::text::{chars_of, has_prefix, push_str, slice_chars, str_eq, str_starts_with, string_from, string_of, trim, trim_chars};
use crate::view::{first_line, first_line_of, truncated};

verus! {

/// The longest preview the popup shows, in characters.
pub const MAX_PREVIEW_CHARS: usize = 64;

/// What the applet reads of a history entry.
#[derive(Debug, Clone)]
pub struct ClipItem {
    pub content: Option<String>,
    pub mime_type: String,
    pub is_favorite: bool,
    pub is_pinned: bool,
}

/// The popup's one-line preview of a text: the first line of the trimmed text,
/// trimmed again and cut to 64 characters (with an ellipsis when cut).
pub open spec fn preview_text(text: Seq<char>) -> Seq<char> {
    truncated(trim(first_line(trim(text))), 64)
}

/// Writes the popup's preview of a text.
pub fn preview(text: &str) -> (r: String)
    ensures
        r@ == preview_text(text@),
{
    let t = trim_chars(&chars_of(text));
    let line = trim_chars(&first_line_of(&t));
    if line.len() > MAX_PREVIEW_CHARS {
        let mut out = slice_chars(&line, 0, MAX_PREVIEW_CHARS);
        push_str(&mut out, "…");
        assert(out@ =~= preview_text(text@));
        string_of(&out)
    } else {
        string_of(&line)
    }
}

/// What clicking an entry in the popup does.
#[derive(Debug, Clone, PartialEq, Eq)]
pub enum ItemAction {
    /// Copy this text to the clipboard.
    CopyText(String),
    /// Open the full window (images and other binary entries).
    OpenGui,
}

/// The marker before an entry: a pin for pinned ones, a star for favorites.
pub open spec fn entry_marker(pinned: bool, favorite: bool) -> Seq<char> {
    if pinned {
        "📌 "@
    } else if favorite {
        "★ "@
    } else {
        Seq::empty()
    }
}

/// Whether an entry is text the applet can copy itself.
pub open spec fn copyable(content: Option<Seq<char>>, mime: Seq<char>) -> bool {
    content is Some && !has_prefix(mime, "image/"@)
}

/// The label of an entry: marker, then the preview of copyable text or a hint
/// to open the window.
pub open spec fn entry_label(content: Option<Seq<char>>, mime: Seq<char>, pinned: bool, favorite: bool) -> Seq<char> {
    entry_marker(pinned, favorite) + if copyable(content, mime) {
        preview_text(content->0)
    } else {
        "[ Image — open Clypse to copy ]"@
    }
}

/// The label and click action of an entry in the popup.
pub fn item_entry(item: &ClipItem) -> (r: (String, ItemAction))
    ensures
        r.0@ == entry_label(opt_str_view(item.content), item.mime_type@, item.is_pinned, item.is_favorite),
        copyable(opt_str_view(item.content), item.mime_type@) ==> (r.1 matches ItemAction::CopyText(t)
            && opt_str_view(item.content) == Some(t@)),
        !copyable(opt_str_view(item.content), item.mime_type@) ==> r.1 == ItemAction::OpenGui,
{
    let (label, action) = match &item.content {
        Some(text) => {
            if !str_starts_with(item.mime_type.as_str(), "image/") {
                (preview(text.as_str()), ItemAction::CopyText(text.clone()))
            } else {
                (string_from("[ Image — open Clypse to copy ]"), ItemAction::OpenGui)
            }
        },
        None => (string_from("[ Image — open Clypse to copy ]"), ItemAction::OpenGui),
    };
    let mut out: Vec<char> = Vec::new();
    if item.is_pinned {
        push_str(&mut out, "📌 ");
    } else if item.is_favorite {
        push_str(&mut out, "★ ");
    }
    push_str(&mut out, label.as_str());
    let full = string_of(&out);
    assert(full@ =~= entry_label(opt_str_view(item.content), item.mime_type@, item.is_pinned, item.is_favorite));
    (full, action)
}

/// The text the popup shows when it has no entries.
pub open spec fn empty_hint(loading: bool, search_empty: bool) -> Seq<char> {
    if loading {
        "Loading…"@
    } else if search_empty {
        "Clipboard history is empty"@
    } else {
        "No results"@
    }
}

/// Chooses the text the popup shows when it has no entries.
pub fn popup_hint(loading: bool, search: &str) -> (r: &'static str)
    ensures
        r@ == empty_hint(loading, search@.len() == 0),
{
    if loading {
        "Loading…"
    } else if search.is_empty() {
        "Clipboard history is empty"
    } else {
        "No results"
    }
}

// ─── State machine ────────────────────────────────────────────────────────────

/// An event the applet handles.
#[derive(Debug)]
pub enum AppletMessage {
    /// The panel icon was clicked.
    PanelPressed,
    /// The popup asked for was created with this id.
    PopupOpened(u64),
    /// A popup was closed.
    PopupClosed(u64),
    /// The search text changed.
    SearchChanged(String),
    /// Entries arrived from the daemon.
    ItemsLoaded(Vec<ClipItem>),
    /// Copy this text and close.
    CopyText(String),
    /// Open the full window and close.
    OpenGui,
}

/// What the applet asks its runtime to do after an event.
#[derive(Debug, PartialEq, Eq)]
pub enum AppletTask {
    Nothing,
    /// Close this popup.
    DestroyPopup(u64),
    /// Open the popup and load the history.
    OpenPopupAndLoad,
    /// Load entries, with this search.
    Load(Option<String>),
    /// Put this text on the clipboard, closing the popup if one is open.
    CopyAndClose { text: String, close: Option<u64> },
    /// Start the full window, closing the popup if one is open.
    LaunchGui { close: Option<u64> },
}

/// The applet's state.
pub struct AppletState {
    pub popup: Option<u64>,
    pub search: String,
    pub items: Vec<ClipItem>,
    pub loading: bool,
}

impl AppletState {
    /// No popup, no search, nothing loaded.
    pub fn new() -> (r: AppletState)
        ensures
            r.popup is None,
            r.search@ == Seq::<char>::empty(),
            r.items@.len() == 0,
            !r.loading,
    {
        AppletState { popup: None, search: String::new(), items: Vec::new(), loading: false }
    }

    /// Handles one event.
    pub fn update(&mut self, message: AppletMessage) -> (r: AppletTask)
        ensures
            match message {
                AppletMessage::PanelPressed => match old(self).popup {
                    Some(id) => r == AppletTask::DestroyPopup(id) && final(self).popup is None
                        && final(self).search == old(self).search && final(self).items == old(self).items
                        && final(self).loading == old(self).loading,
                    None => r == AppletTask::OpenPopupAndLoad && final(self).popup is None
                        && final(self).search@.len() == 0 && final(self).items@.len() == 0 && final(self).loading,
                },
                AppletMessage::PopupOpened(id) => r == AppletTask::Nothing && final(self).popup == Some(id)
                    && final(self).search == old(self).search && final(self).items == old(self).items
                    && final(self).loading == old(self).loading,
                AppletMessage::PopupClosed(id) => r == AppletTask::Nothing
                    && final(self).popup == (if old(self).popup == Some(id) { None } else { old(self).popup })
                    && final(self).search == old(self).search && final(self).items == old(self).items
                    && final(self).loading == old(self).loading,
                AppletMessage::SearchChanged(s) => final(self).search@ == s@ && final(self).loading
                    && final(self).popup == old(self).popup && final(self).items == old(self).items
                    && (r matches AppletTask::Load(q) && opt_str_view(q) == if s@.len() == 0 { None } else { Some(s@) }),
                AppletMessage::ItemsLoaded(items) => r == AppletTask::Nothing && final(self).items == items
                    && !final(self).loading && final(self).popup == old(self).popup
                    && final(self).search == old(self).search,
                AppletMessage::CopyText(text) => r == (AppletTask::CopyAndClose { text, close: old(self).popup })
                    && final(self).popup is None && final(self).search == old(self).search
                    && final(self).items == old(self).items && final(self).loading == old(self).loading,
                AppletMessage::OpenGui => r == (AppletTask::LaunchGui { close: old(self).popup })
                    && final(self).popup is None && final(self).search == old(self).search
                    && final(self).items == old(self).items && final(self).loading == old(self).loading,
            },
    {
        match message {
            AppletMessage::PanelPressed => {
                match self.popup.take() {
                    Some(id) => AppletTask::DestroyPopup(id),
                    None => {
                        self.search = String::new();
                        self.items = Vec::new();
                        self.loading = true;
                        AppletTask::OpenPopupAndLoad
                    },
                }
            },
            AppletMessage::PopupOpened(id) => {
                self.popup = Some(id);
                AppletTask::Nothing
            },
            AppletMessage::PopupClosed(id) => {
                if self.popup == Some(id) {
                    self.popup = None;
                }
                AppletTask::Nothing
            },
            AppletMessage::SearchChanged(s) => {
                self.loading = true;
                let query = if s.as_str().is_empty() { None } else { Some(s.clone()) };
                self.search = s;
                AppletTask::Load(query)
            },
            AppletMessage::ItemsLoaded(items) => {
                self.items = items;
                self.loading = false;
                AppletTask::Nothing
            },
            AppletMessage::CopyText(text) => {
                let close = self.popup.take();
                AppletTask::CopyAndClose { text, close }
            },
            AppletMessage::OpenGui => {
                let close = self.popup.take();
                AppletTask::LaunchGui { close }
            },
        }
    }
}


// ─── Talking to the daemon ────────────────────────────────────────────────────

/// The daemon's socket, found as the daemon itself places it.
pub fn socket_path(runtime_dir: Option<&str>, temp_dir: &str) -> (r: String)
    ensures
        r@ == socket_file(opt_ref_view(runtime_dir), temp_dir@),
{
    Config::socket_path(runtime_dir, temp_dir)
}

/// An entry as the applet reads it.
pub struct EntryView {
    pub content: Option<Seq<char>>,
    pub mime_type: Seq<char>,
    pub is_favorite: bool,
    pub is_pinned: bool,
}

impl View for ClipItem {
    type V = EntryView;

    open spec fn view(&self) -> EntryView {
        EntryView {
            content: opt_str_view(self.content),
            mime_type: self.mime_type@,
            is_favorite: self.is_favorite,
            is_pinned: self.is_pinned,
        }
    }
}

pub open spec fn entry_views(items: Seq<ClipItem>) -> Seq<EntryView> {
    items.map_values(|i: ClipItem| i@)
}

/// The request line for the popup's list: request id 1, the first 40 entries,
/// the search as a JSON string or `null`.
pub open spec fn fetch_request_text(search: Option<Seq<char>>) -> Seq<char> {
    "{\"method\":\"get_items\",\"id\":1,\"search\":"@ + match search {
        Some(s) => json_string(s),
        None => "null"@,
    } + ",\"limit\":40,\"offset\":0}\n"@
}

/// Writes the request line for the popup's list.
pub fn fetch_request(search: Option<&str>) -> (r: String)
    ensures
        r@ == fetch_request_text(opt_ref_view(search)),
{
    let mut out: Vec<char> = Vec::new();
    push_str(&mut out, "{\"method\":\"get_items\",\"id\":1,\"search\":");
    match search {
        Some(s) => {
            let quoted = json_quote(s);
            push_str(&mut out, quoted.as_str());
        },
        None => push_str(&mut out, "null"),
    }
    push_str(&mut out, ",\"limit\":40,\"offset\":0}\n");
    let r = string_of(&out);
    assert(r@ =~= fetch_request_text(opt_ref_view(search)));
    r
}

/// The popup's request is exactly one line: a text without a line feed, then
/// a line feed, whatever the search holds.
pub proof fn law_fetch_request_is_one_line(search: Option<Seq<char>>)
    ensures
        fetch_request_text(search).len() > 0,
        fetch_request_text(search).last() == '\n',
        one_line(fetch_request_text(search).drop_last()),
{
    reveal_strlit("{\"method\":\"get_items\",\"id\":1,\"search\":");
    reveal_strlit(",\"limit\":40,\"offset\":0}\n");
    let q = match search {
        Some(s) => json_string(s),
        None => "null"@,
    };
    lemma_search_one_line(search);
    let head = "{\"method\":\"get_items\",\"id\":1,\"search\":"@;
    let tail = ",\"limit\":40,\"offset\":0}"@;
    reveal_strlit(",\"limit\":40,\"offset\":0}");
    lemma_concat_one_line(head, q);
    lemma_concat_one_line(head + q, tail);
    assert(fetch_request_text(search) =~= (head + q + tail).push('\n'));
    assert(fetch_request_text(search).drop_last() =~= head + q + tail);
}

/// The entry four JSON values describe (content, type, favorite, pinned).
pub open spec fn entry_from_fields(content: Json, mime_type: Json, is_favorite: Json, is_pinned: Json) -> Option<EntryView> {
    if opt_text(content) is Some && json_str(mime_type) is Some && json_bool(is_favorite) is Some
        && json_bool(is_pinned) is Some {
        Some(EntryView {
            content: opt_text(content)->0,
            mime_type: json_str(mime_type)->0,
            is_favorite: json_bool(is_favorite)->0,
            is_pinned: json_bool(is_pinned)->0,
        })
    } else {
        None
    }
}

/// The entry a JSON value describes: an object with the four fields by name
/// (`content` may be missing), or an array of exactly the four values.
pub open spec fn entry_of(j: Json) -> Option<EntryView> {
    match j {
        Json::Object(_) => entry_from_fields(
            field(j, "content"@), field(j, "mime_type"@), field(j, "is_favorite"@), field(j, "is_pinned"@),
        ),
        Json::Array(a) => if a@.len() == 4 {
            entry_from_fields(a@[0], a@[1], a@[2], a@[3])
        } else {
            None
        },
        _ => None,
    }
}

/// The entries of a sequence of JSON values, when every one is an entry.
pub open spec fn entries_of_values(s: Seq<Json>) -> Option<Seq<EntryView>>
    decreases s.len(),
{
    if s.len() == 0 {
        Some(Seq::empty())
    } else {
        match (entries_of_values(s.drop_last()), entry_of(s.last())) {
            (Some(es), Some(e)) => Some(es.push(e)),
            _ => None,
        }
    }
}

/// The entries a reply lists: those of an array of entries, and none when the
/// value is not one.
pub open spec fn listed_entries(j: Json) -> Seq<EntryView> {
    match j {
        Json::Array(a) => match entries_of_values(a@) {
            Some(es) => es,
            None => Seq::empty(),
        },
        _ => Seq::empty(),
    }
}

/// Reads an entry from the values of its four fields.
fn entry_from_fields_exec(content: &Json, mime_type: &Json, is_favorite: &Json, is_pinned: &Json) -> (r: Option<ClipItem>)
    ensures
        match r {
            Some(it) => entry_from_fields(*content, *mime_type, *is_favorite, *is_pinned) == Some(it@),
            None => entry_from_fields(*content, *mime_type, *is_favorite, *is_pinned) is None,
        },
{
    let content = match content {
        Json::Null => None,
        Json::Str(s) => Some(s.clone()),
        _ => return None,
    };
    let mime_type = match mime_type.as_str() {
        Some(v) => string_from(v),
        None => return None,
    };
    let is_favorite = match is_favorite.as_bool() {
        Some(v) => v,
        None => return None,
    };
    let is_pinned = match is_pinned.as_bool() {
        Some(v) => v,
        None => return None,
    };
    Some(ClipItem { content, mime_type, is_favorite, is_pinned })
}

/// Reads one popup entry from a JSON value.
pub fn entry_from_json(j: &Json) -> (r: Option<ClipItem>)
    ensures
        match r {
            Some(it) => entry_of(*j) == Some(it@),
            None => entry_of(*j) is None,
        },
{
    match j {
        Json::Object(_) => entry_from_fields_exec(j.get("content"), j.get("mime_type"), j.get("is_favorite"), j.get("is_pinned")),
        Json::Array(a) => {
            if a.len() == 4 {
                entry_from_fields_exec(&a[0], &a[1], &a[2], &a[3])
            } else {
                None
            }
        },
        _ => None,
    }
}

/// Once a prefix holds a value that is not an entry, so does the whole sequence.
proof fn lemma_entries_prefix_none(s: Seq<Json>, i: int)
    requires
        0 <= i <= s.len(),
        entries_of_values(s.take(i)) is None,
    ensures
        entries_of_values(s) is None,
    decreases s.len() - i,
{
    if i < s.len() {
        assert(s.take(i + 1).drop_last() =~= s.take(i));
        lemma_entries_prefix_none(s, i + 1);
    } else {
        assert(s.take(i) =~= s);
    }
}

/// Reads the popup's entries from the `items` of a reply: all of them, or none
/// at all when one of them (or the value itself) is not readable.
pub fn entries_from_json(j: &Json) -> (r: Vec<ClipItem>)
    ensures
        entry_views(r@) == listed_entries(*j),
{
    match j {
        Json::Array(a) => {
            let mut out: Vec<ClipItem> = Vec::new();
            let mut i: usize = 0;
            while i < a.len()
                invariant
                    i <= a.len(),
                    listed_entries(*j) == (match entries_of_values(a@) {
                        Some(es) => es,
                        None => Seq::<EntryView>::empty(),
                    }),
                    entries_of_values(a@.take(i as int)) == Some(entry_views(out@)),
                decreases a.len() - i,
            {
                assert(a@.take(i as int + 1).drop_last() =~= a@.take(i as int));
                match entry_from_json(&a[i]) {
                    Some(it) => {
                        let ghost before = out@;
                        out.push(it);
                        assert(entry_views(out@) =~= entry_views(before).push(it@));
                    },
                    None => {
                        proof {
                            assert(a@.take(i as int + 1).last() == a@[i as int]);
                            lemma_entries_prefix_none(a@, i as int + 1);
                        }
                        let empty: Vec<ClipItem> = Vec::new();
                        assert(entry_views(empty@) =~= Seq::<EntryView>::empty());
                        return empty;
                    },
                }
                i += 1;
            }
            assert(a@.take(a.len() as int) =~= a@);
            out
        },
        _ => {
            let empty: Vec<ClipItem> = Vec::new();
            assert(entry_views(empty@) =~= Seq::<EntryView>::empty());
            empty
        },
    }
}

/// What a line from the daemon means to the popup's fetch.
#[derive(Debug)]
pub enum ReplyStep {
    /// The list asked for.
    Items(Vec<ClipItem>),
    /// The daemon answered with an error.
    DaemonError,
    /// Something else (an event): keep reading.
    Skip,
}

/// Whether a JSON value is the string `s`.
pub open spec fn is_text(j: Json, s: Seq<char>) -> bool {
    json_str(j) == Some(s)
}

/// Whether a message is a result that lists items.
pub open spec fn is_items_result(v: Json) -> bool {
    is_text(field(v, "type"@), "result"@) && is_text(field(field(v, "data"@), "kind"@), "items"@)
}

/// Whether a JSON value is the string `s`.
fn text_is(j: &Json, s: &str) -> (r: bool)
    ensures
        r == is_text(*j, s@),
{
    match j.as_str() {
        Some(t) => str_eq(t, s),
        None => false,
    }
}

/// Reads one message from the daemon during the popup's fetch: a result that
/// lists items ends it with those items, an error ends it, anything else is
/// skipped.
pub fn reply_step(v: &Json) -> (r: ReplyStep)
    ensures
        is_items_result(*v) ==> (r matches ReplyStep::Items(items)
            && entry_views(items@) == listed_entries(field(field(*v, "data"@), "items"@))),
        !is_items_result(*v) && is_text(field(*v, "type"@), "error"@) ==> r is DaemonError,
        !is_items_result(*v) && !is_text(field(*v, "type"@), "error"@) ==> r is Skip,
{
    let ty = v.get("type");
    if text_is(ty, "result") {
        let data = v.get("data");
        if text_is(data.get("kind"), "items") {
            return ReplyStep::Items(entries_from_json(data.get("items")));
        }
    }
    if text_is(ty, "error") {
        ReplyStep::DaemonError
    } else {
        ReplyStep::Skip
    }
}

} // verus!
