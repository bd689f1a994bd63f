//! The interface side of the protocol: the requests a client writes, and how it
//! reads the daemon's JSON messages.
use vstd::prelude::*;

pub use crate::db::ClipItem;
use crate::db::{opt_str_view, ClipRow};
use crate::hash::hex_digit;
use crate::text::{digit_char, digits,
    chars_of, int_text, push_i64, push_str, push_u64, str_eq, string_from, string_of,
};

verus! {

// ─── JSON values ──────────────────────────────────────────────────────────────

/// A parsed JSON value, as much of it as the client reads.
#[derive(Debug)]
pub enum Json {
    Null,
    Bool(bool),
    /// A number that fits a signed 64-bit integer.
    Int(i64),
    /// Any other number (a fraction, or an integer above the signed 64-bit range).
    OtherNumber,
    Str(String),
    Array(Vec<Json>),
    /// An object's members in order; a key is looked up by its first member.
    Object(Vec<(String, Json)>),
}

/// The member of an object's entries under `key` (the first one), or `Null`.
pub open spec fn member(entries: Seq<(String, Json)>, key: Seq<char>) -> Json
    decreases entries.len(),
{
    if entries.len() == 0 {
        Json::Null
    } else if entries[0].0@ == key {
        entries[0].1
    } else {
        member(entries.drop_first(), key)
    }
}

/// `j[key]`: the member under `key` of an object, `Null` for anything else.
pub open spec fn field(j: Json, key: Seq<char>) -> Json {
    match j {
        Json::Object(entries) => member(entries@, key),
        _ => Json::Null,
    }
}

pub open spec fn json_str(j: Json) -> Option<Seq<char>> {
    match j {
        Json::Str(s) => Some(s@),
        _ => None,
    }
}

pub open spec fn json_i64(j: Json) -> Option<i64> {
    match j {
        Json::Int(i) => Some(i),
        _ => None,
    }
}

pub open spec fn json_bool(j: Json) -> Option<bool> {
    match j {
        Json::Bool(b) => Some(b),
        _ => None,
    }
}

impl Json {
    /// `self[key]`.
    pub fn get(&self, key: &str) -> (r: &Json)
        ensures
            *r == field(*self, key@),
    {
        match self {
            Json::Object(entries) => {
                let mut i: usize = 0;
                assert(entries@.skip(0) =~= entries@);
                while i < entries.len()
                    invariant
                        i <= entries.len(),
                        field(*self, key@) == member(entries@, key@),
                        member(entries@, key@) == member(entries@.skip(i as int), key@),
                    decreases entries.len() - i,
                {
                    assert(entries@.skip(i as int)[0] == entries@[i as int]);
                    assert(entries@.skip(i as int).drop_first() =~= entries@.skip(i as int + 1));
                    if str_eq(entries[i].0.as_str(), key) {
                        assert(entries@[i as int].0@ == key@);
                        assert(member(entries@.skip(i as int), key@) == entries@[i as int].1);
                        return &entries[i].1;
                    }
                    i += 1;
                }
                assert(entries@.skip(entries.len() as int) =~= Seq::<(String, Json)>::empty());
                &NULL
            },
            _ => &NULL,
        }
    }

    /// The string this value is, if it is one.
    pub fn as_str(&self) -> (r: Option<&str>)
        ensures
            match r {
                Some(s) => json_str(*self) == Some(s@),
                None => json_str(*self) is None,
            },
    {
        match self {
            Json::Str(s) => Some(s.as_str()),
            _ => None,
        }
    }

    /// The integer this value is, if it is one that fits.
    pub fn as_i64(&self) -> (r: Option<i64>)
        ensures
            r == json_i64(*self),
    {
        match self {
            Json::Int(i) => Some(*i),
            _ => None,
        }
    }

    /// The boolean this value is, if it is one.
    pub fn as_bool(&self) -> (r: Option<bool>)
        ensures
            r == json_bool(*self),
    {
        match self {
            Json::Bool(b) => Some(*b),
            _ => None,
        }
    }
}

const NULL: Json = Json::Null;

// ─── JSON strings ─────────────────────────────────────────────────────────────

/// One character inside a JSON string literal as serde_json writes it: a quote
/// or backslash behind a backslash, the five short control escapes, any other
/// character below U+0020 as `\u00` and two lowercase hex digits, and every
/// other character as itself.
pub open spec fn json_char(c: char) -> Seq<char> {
    if c == '"' {
        seq!['\\', '"']
    } else if c == '\\' {
        seq!['\\', '\\']
    } else if c == '\u{8}' {
        seq!['\\', 'b']
    } else if c == '\t' {
        seq!['\\', 't']
    } else if c == '\n' {
        seq!['\\', 'n']
    } else if c == '\u{c}' {
        seq!['\\', 'f']
    } else if c == '\r' {
        seq!['\\', 'r']
    } else if (c as u32) < 0x20 {
        seq!['\\', 'u', '0', '0', hex_digit((c as u32) as int / 16), hex_digit((c as u32) as int % 16)]
    } else {
        seq![c]
    }
}

/// The characters of a string, each written as in a JSON string literal.
pub open spec fn json_escaped(s: Seq<char>) -> Seq<char>
    decreases s.len(),
{
    if s.len() == 0 {
        Seq::empty()
    } else {
        json_escaped(s.drop_last()) + json_char(s.last())
    }
}

/// A string as a JSON string literal: in double quotes, escaped.
pub open spec fn json_string(s: Seq<char>) -> Seq<char> {
    "\""@ + json_escaped(s) + "\""@
}

/// The lowercase hexadecimal digit for a value below sixteen.
fn hex_char(n: u32) -> (c: char)
    requires
        n < 16,
    ensures
        c == hex_digit(n as int),
{
    if n == 0 { '0' } else if n == 1 { '1' } else if n == 2 { '2' } else if n == 3 { '3' }
    else if n == 4 { '4' } else if n == 5 { '5' } else if n == 6 { '6' } else if n == 7 { '7' }
    else if n == 8 { '8' } else if n == 9 { '9' } else if n == 10 { 'a' } else if n == 11 { 'b' }
    else if n == 12 { 'c' } else if n == 13 { 'd' } else if n == 14 { 'e' } else { 'f' }
}

/// Appends one character as it is written inside a JSON string literal.
fn push_json_char(out: &mut Vec<char>, c: char)
    ensures
        final(out)@ == old(out)@ + json_char(c),
{
    let u = c as u32;
    if c == '"' {
        out.push('\\');
        out.push('"');
    } else if c == '\\' {
        out.push('\\');
        out.push('\\');
    } else if c == '\u{8}' {
        out.push('\\');
        out.push('b');
    } else if c == '\t' {
        out.push('\\');
        out.push('t');
    } else if c == '\n' {
        out.push('\\');
        out.push('n');
    } else if c == '\u{c}' {
        out.push('\\');
        out.push('f');
    } else if c == '\r' {
        out.push('\\');
        out.push('r');
    } else if u < 0x20 {
        out.push('\\');
        out.push('u');
        out.push('0');
        out.push('0');
        out.push(hex_char(u / 16));
        out.push(hex_char(u % 16));
    } else {
        out.push(c);
    }
    assert(out@ =~= old(out)@ + json_char(c));
}

/// Appends a string as a JSON string literal: in double quotes, with quotes,
/// backslashes and control characters escaped.
pub fn push_json_string(out: &mut Vec<char>, s: &str)
    ensures
        final(out)@ == old(out)@ + json_string(s@),
{
    let cs = chars_of(s);
    out.push('"');
    let ghost start = out@;
    let mut i: usize = 0;
    while i < cs.len()
        invariant
            i <= cs.len(),
            cs@ == s@,
            out@ == start + json_escaped(s@.take(i as int)),
        decreases cs.len() - i,
    {
        assert(s@.take(i as int + 1).drop_last() =~= s@.take(i as int));
        assert(s@.take(i as int + 1).last() == cs@[i as int]);
        push_json_char(out, cs[i]);
        assert(out@ =~= start + json_escaped(s@.take(i as int + 1)));
        i += 1;
    }
    assert(s@.take(s@.len() as int) =~= s@);
    out.push('"');
    proof {
        reveal_strlit("\"");
    }
    assert(out@ =~= old(out)@ + json_string(s@));
}

/// Writes a string as a JSON string literal with serde_json's `to_string`.
/// Claimed: the result is the quoted, escaped form that serde_json's formatter
/// writes (its `ESCAPE` table); serialising a string into memory does not fail.
#[verifier::external_body]
pub(crate) fn json_quote(s: &str) -> (r: String)
    ensures
        r@ == json_string(s@),
{
    match serde_json::to_string(s) {
        Ok(t) => t,
        Err(_) => String::new(),
    }
}

// ─── Entries in messages ──────────────────────────────────────────────────────

/// An optional string field: `null` (or absent) is none, a string is some,
/// anything else is unreadable.
pub open spec fn opt_text(j: Json) -> Option<Option<Seq<char>>> {
    match j {
        Json::Null => Some(None),
        Json::Str(s) => Some(Some(s@)),
        _ => None,
    }
}

/// The entry described by the eleven values of its fields, in declaration order.
pub open spec fn row_from_fields(
    id: Json, hash: Json, content: Json, blob_path: Json, mime_type: Json, byte_size: Json,
    is_favorite: Json, is_pinned: Json, created_at: Json, last_used: Json, use_count: Json,
) -> Option<ClipRow> {
    if json_i64(id) is Some && json_str(hash) is Some && opt_text(content) is Some && opt_text(blob_path) is Some
        && json_str(mime_type) is Some && json_i64(byte_size) is Some && json_bool(is_favorite) is Some
        && json_bool(is_pinned) is Some && json_i64(created_at) is Some && json_i64(last_used) is Some
        && json_i64(use_count) is Some {
        Some(ClipRow {
            id: json_i64(id)->0,
            hash: json_str(hash)->0,
            content: opt_text(content)->0,
            blob_path: opt_text(blob_path)->0,
            mime_type: json_str(mime_type)->0,
            byte_size: json_i64(byte_size)->0,
            is_favorite: json_bool(is_favorite)->0,
            is_pinned: json_bool(is_pinned)->0,
            created_at: json_i64(created_at)->0,
            last_used: json_i64(last_used)->0,
            use_count: json_i64(use_count)->0,
        })
    } else {
        None
    }
}

/// The entry a JSON value describes: an object with its fields by name (the
/// optional ones may be missing), or an array of exactly its eleven field values.
pub open spec fn clip_row_of(j: Json) -> Option<ClipRow> {
    match j {
        Json::Object(_) => row_from_fields(
            field(j, "id"@), field(j, "hash"@), field(j, "content"@), field(j, "blob_path"@),
            field(j, "mime_type"@), field(j, "byte_size"@), field(j, "is_favorite"@), field(j, "is_pinned"@),
            field(j, "created_at"@), field(j, "last_used"@), field(j, "use_count"@),
        ),
        Json::Array(a) => if a@.len() == 11 {
            row_from_fields(a@[0], a@[1], a@[2], a@[3], a@[4], a@[5], a@[6], a@[7], a@[8], a@[9], a@[10])
        } else {
            None
        },
        _ => None,
    }
}

/// Reads an optional string field.
fn read_opt_text(j: &Json) -> (r: Option<Option<String>>)
    ensures
        match r {
            Some(o) => opt_text(*j) == Some(opt_str_view(o)),
            None => opt_text(*j) is None,
        },
{
    match j {
        Json::Null => Some(None),
        Json::Str(s) => Some(Some(s.clone())),
        _ => None,
    }
}

/// Reads an entry from the values of its eleven fields.
fn item_from_fields(
    id: &Json, hash: &Json, content: &Json, blob_path: &Json, mime_type: &Json, byte_size: &Json,
    is_favorite: &Json, is_pinned: &Json, created_at: &Json, last_used: &Json, use_count: &Json,
) -> (r: Option<ClipItem>)
    ensures
        match r {
            Some(it) => row_from_fields(*id, *hash, *content, *blob_path, *mime_type, *byte_size,
                *is_favorite, *is_pinned, *created_at, *last_used, *use_count) == Some(it@),
            None => row_from_fields(*id, *hash, *content, *blob_path, *mime_type, *byte_size,
                *is_favorite, *is_pinned, *created_at, *last_used, *use_count) is None,
        },
{
    let id = match id.as_i64() { Some(v) => v, None => return None };
    let hash = match hash.as_str() { Some(v) => string_from(v), None => return None };
    let content = match read_opt_text(content) { Some(v) => v, None => return None };
    let blob_path = match read_opt_text(blob_path) { Some(v) => v, None => return None };
    let mime_type = match mime_type.as_str() { Some(v) => string_from(v), None => return None };
    let byte_size = match byte_size.as_i64() { Some(v) => v, None => return None };
    let is_favorite = match is_favorite.as_bool() { Some(v) => v, None => return None };
    let is_pinned = match is_pinned.as_bool() { Some(v) => v, None => return None };
    let created_at = match created_at.as_i64() { Some(v) => v, None => return None };
    let last_used = match last_used.as_i64() { Some(v) => v, None => return None };
    let use_count = match use_count.as_i64() { Some(v) => v, None => return None };
    Some(ClipItem { id, hash, content, blob_path, mime_type, byte_size, is_favorite, is_pinned, created_at, last_used, use_count })
}

/// Reads an entry from a JSON value.
pub fn clip_item_from_json(j: &Json) -> (r: Option<ClipItem>)
    ensures
        match r {
            Some(it) => clip_row_of(*j) == Some(it@),
            None => clip_row_of(*j) is None,
        },
{
    match j {
        Json::Object(_) => item_from_fields(
            j.get("id"), j.get("hash"), j.get("content"), j.get("blob_path"), j.get("mime_type"),
            j.get("byte_size"), j.get("is_favorite"), j.get("is_pinned"), j.get("created_at"),
            j.get("last_used"), j.get("use_count"),
        ),
        Json::Array(a) => {
            if a.len() == 11 {
                item_from_fields(&a[0], &a[1], &a[2], &a[3], &a[4], &a[5], &a[6], &a[7], &a[8], &a[9], &a[10])
            } else {
                None
            }
        },
        _ => None,
    }
}

/// The entries of a sequence of JSON values, when every one is an entry.
pub open spec fn rows_of_values(s: Seq<Json>) -> Option<Seq<ClipRow>>
    decreases s.len(),
{
    if s.len() == 0 {
        Some(Seq::empty())
    } else {
        match (rows_of_values(s.drop_last()), clip_row_of(s.last())) {
            (Some(rs), Some(r)) => Some(rs.push(r)),
            _ => None,
        }
    }
}

/// The entries a JSON array lists, when it is an array of entries.
pub open spec fn clip_rows_of(j: Json) -> Option<Seq<ClipRow>> {
    match j {
        Json::Array(a) => rows_of_values(a@),
        _ => None,
    }
}

/// Reads a list of entries from a JSON value.
pub fn clip_items_from_json(j: &Json) -> (r: Option<Vec<ClipItem>>)
    ensures
        match r {
            Some(items) => clip_rows_of(*j) == Some(crate::db::rows_of(items@)),
            None => clip_rows_of(*j) is None,
        },
{
    match j {
        Json::Array(a) => {
            let mut out: Vec<ClipItem> = Vec::new();
            let mut i: usize = 0;
            while i < a.len()
                invariant
                    i <= a.len(),
                    clip_rows_of(*j) == rows_of_values(a@),
                    rows_of_values(a@.take(i as int)) == Some(crate::db::rows_of(out@)),
                decreases a.len() - i,
            {
                assert(a@.take(i as int + 1).drop_last() =~= a@.take(i as int));
                match clip_item_from_json(&a[i]) {
                    Some(it) => {
                        let ghost before = out@;
                        out.push(it);
                        assert(crate::db::rows_of(out@) =~= crate::db::rows_of(before).push(it@));
                    },
                    None => {
                        proof {
                            assert(a@.take(i as int + 1).last() == a@[i as int]);
                            assert(rows_of_values(a@.take(i as int + 1)) is None);
                            lemma_rows_of_values_prefix_none(a@, i as int + 1);
                        }
                        return None;
                    },
                }
                i += 1;
            }
            assert(a@.take(a.len() as int) =~= a@);
            Some(out)
        },
        _ => None,
    }
}

/// Once a prefix holds a value that is not an entry, so does the whole sequence.
proof fn lemma_rows_of_values_prefix_none(s: Seq<Json>, i: int)
    requires
        0 <= i <= s.len(),
        rows_of_values(s.take(i)) is None,
    ensures
        rows_of_values(s) is None,
    decreases s.len() - i,
{
    if i < s.len() {
        assert(s.take(i + 1).drop_last() =~= s.take(i));
        lemma_rows_of_values_prefix_none(s, i + 1);
    } else {
        assert(s.take(i) =~= s);
    }
}

// ─── Messages from the daemon ─────────────────────────────────────────────────

/// A message from the daemon, as the interface understands it.
#[derive(Debug)]
pub enum DaemonMessage {
    Items { items: Vec<ClipItem>, total: i64 },
    ItemAdded(ClipItem),
    FavoriteToggled { item_id: i64, is_favorite: bool },
    PinnedToggled { item_id: i64, is_pinned: bool },
    ItemUpdated,
    ItemDeleted { item_id: i64 },
    HistoryCleared,
    Disconnected,
    Error(String),
}

/// The mathematical value of a [`DaemonMessage`].
pub enum MessageView {
    Items { items: Seq<ClipRow>, total: i64 },
    ItemAdded(ClipRow),
    FavoriteToggled { item_id: i64, is_favorite: bool },
    PinnedToggled { item_id: i64, is_pinned: bool },
    ItemUpdated,
    ItemDeleted { item_id: i64 },
    HistoryCleared,
    Disconnected,
    Error(Seq<char>),
}

impl View for DaemonMessage {
    type V = MessageView;

    open spec fn view(&self) -> MessageView {
        match self {
            DaemonMessage::Items { items, total } => MessageView::Items { items: crate::db::rows_of(items@), total: *total },
            DaemonMessage::ItemAdded(item) => MessageView::ItemAdded(item@),
            DaemonMessage::FavoriteToggled { item_id, is_favorite } => MessageView::FavoriteToggled { item_id: *item_id, is_favorite: *is_favorite },
            DaemonMessage::PinnedToggled { item_id, is_pinned } => MessageView::PinnedToggled { item_id: *item_id, is_pinned: *is_pinned },
            DaemonMessage::ItemUpdated => MessageView::ItemUpdated,
            DaemonMessage::ItemDeleted { item_id } => MessageView::ItemDeleted { item_id: *item_id },
            DaemonMessage::HistoryCleared => MessageView::HistoryCleared,
            DaemonMessage::Disconnected => MessageView::Disconnected,
            DaemonMessage::Error(e) => MessageView::Error(e@),
        }
    }
}

/// The answer part of a `result` message.
pub open spec fn result_message(data: Json) -> Option<MessageView> {
    let kind = json_str(field(data, "kind"@));
    if kind == Some("items"@) {
        match clip_rows_of(field(data, "items"@)) {
            Some(items) => Some(MessageView::Items {
                items,
                total: match json_i64(field(data, "total"@)) { Some(t) => t, None => 0 },
            }),
            None => None,
        }
    } else if kind == Some("deleted"@) {
        match json_i64(field(data, "item_id"@)) {
            Some(id) => Some(MessageView::ItemDeleted { item_id: id }),
            None => None,
        }
    } else if kind == Some("cleared"@) {
        Some(MessageView::HistoryCleared)
    } else if kind == Some("favorite"@) {
        match (json_i64(field(data, "item_id"@)), json_bool(field(data, "is_favorite"@))) {
            (Some(id), Some(b)) => Some(MessageView::FavoriteToggled { item_id: id, is_favorite: b }),
            _ => None,
        }
    } else if kind == Some("pinned"@) {
        match (json_i64(field(data, "item_id"@)), json_bool(field(data, "is_pinned"@))) {
            (Some(id), Some(b)) => Some(MessageView::PinnedToggled { item_id: id, is_pinned: b }),
            _ => None,
        }
    } else {
        None
    }
}

/// The notification part of an `event` message.
pub open spec fn event_message(ev: Json) -> Option<MessageView> {
    let kind = json_str(field(ev, "kind"@));
    if kind == Some("item_added"@) {
        match clip_row_of(field(ev, "item"@)) {
            Some(item) => Some(MessageView::ItemAdded(item)),
            None => None,
        }
    } else if kind == Some("item_updated"@) {
        Some(MessageView::ItemUpdated)
    } else if kind == Some("item_deleted"@) {
        match json_i64(field(ev, "item_id"@)) {
            Some(id) => Some(MessageView::ItemDeleted { item_id: id }),
            None => None,
        }
    } else if kind == Some("history_cleared"@) {
        Some(MessageView::HistoryCleared)
    } else {
        None
    }
}

/// What a message line from the daemon means to the interface, if anything.
pub open spec fn daemon_message(v: Json) -> Option<MessageView> {
    let ty = json_str(field(v, "type"@));
    if ty == Some("result"@) {
        result_message(field(v, "data"@))
    } else if ty == Some("event"@) {
        event_message(field(v, "event"@))
    } else if ty == Some("error"@) {
        Some(MessageView::Error(match json_str(field(v, "message"@)) { Some(m) => m, None => "unknown"@ }))
    } else {
        None
    }
}

pub open spec fn message_opt_view(m: Option<DaemonMessage>) -> Option<MessageView> {
    match m {
        Some(x) => Some(x@),
        None => None,
    }
}

/// Reads the answer part of a `result` message.
fn read_result(data: &Json) -> (r: Option<DaemonMessage>)
    ensures
        message_opt_view(r) == result_message(*data),
{
    let kind = match data.get("kind").as_str() {
        Some(k) => k,
        None => return None,
    };
    if str_eq(kind, "items") {
        match clip_items_from_json(data.get("items")) {
            Some(items) => {
                let total = match data.get("total").as_i64() { Some(t) => t, None => 0 };
                Some(DaemonMessage::Items { items, total })
            },
            None => None,
        }
    } else if str_eq(kind, "deleted") {
        match data.get("item_id").as_i64() {
            Some(id) => Some(DaemonMessage::ItemDeleted { item_id: id }),
            None => None,
        }
    } else if str_eq(kind, "cleared") {
        Some(DaemonMessage::HistoryCleared)
    } else if str_eq(kind, "favorite") {
        match (data.get("item_id").as_i64(), data.get("is_favorite").as_bool()) {
            (Some(id), Some(b)) => Some(DaemonMessage::FavoriteToggled { item_id: id, is_favorite: b }),
            _ => None,
        }
    } else if str_eq(kind, "pinned") {
        match (data.get("item_id").as_i64(), data.get("is_pinned").as_bool()) {
            (Some(id), Some(b)) => Some(DaemonMessage::PinnedToggled { item_id: id, is_pinned: b }),
            _ => None,
        }
    } else {
        None
    }
}

/// Reads the notification part of an `event` message.
fn read_event(ev: &Json) -> (r: Option<DaemonMessage>)
    ensures
        message_opt_view(r) == event_message(*ev),
{
    let kind = match ev.get("kind").as_str() {
        Some(k) => k,
        None => return None,
    };
    if str_eq(kind, "item_added") {
        match clip_item_from_json(ev.get("item")) {
            Some(item) => Some(DaemonMessage::ItemAdded(item)),
            None => None,
        }
    } else if str_eq(kind, "item_updated") {
        Some(DaemonMessage::ItemUpdated)
    } else if str_eq(kind, "item_deleted") {
        match ev.get("item_id").as_i64() {
            Some(id) => Some(DaemonMessage::ItemDeleted { item_id: id }),
            None => None,
        }
    } else if str_eq(kind, "history_cleared") {
        Some(DaemonMessage::HistoryCleared)
    } else {
        None
    }
}

/// Reads a message line from the daemon (already parsed as JSON).
pub fn parse_daemon_message(v: &Json) -> (r: Option<DaemonMessage>)
    ensures
        message_opt_view(r) == daemon_message(*v),
{
    let ty = match v.get("type").as_str() {
        Some(t) => t,
        None => return None,
    };
    if str_eq(ty, "result") {
        read_result(v.get("data"))
    } else if str_eq(ty, "event") {
        read_event(v.get("event"))
    } else if str_eq(ty, "error") {
        let m = match v.get("message").as_str() {
            Some(m) => string_from(m),
            None => string_from("unknown"),
        };
        Some(DaemonMessage::Error(m))
    } else {
        None
    }
}

// ─── Requests to the daemon ───────────────────────────────────────────────────

/// A command from the interface to the daemon.
#[derive(Debug, Clone)]
pub enum GuiCommand {
    GetItems { search: Option<String>, limit: usize, offset: usize },
    ToggleFavorite(i64),
    DeleteItem(i64),
    ClearHistory,
}

/// The request line for a page of items: a JSON object, newline-terminated,
/// with the search as a JSON string literal (quotes, backslashes and control
/// characters escaped) or `null`.
pub open spec fn items_request_text(id: u64, search: Option<Seq<char>>, limit: usize, offset: usize) -> Seq<char> {
    "{\"method\":\"get_items\",\"id\":"@ + int_text(id as int) + ",\"search\":"@
        + match search {
            Some(s) => json_string(s),
            None => "null"@,
        }
        + ",\"limit\":"@ + int_text(limit as int) + ",\"offset\":"@ + int_text(offset as int) + "}\n"@
}

/// Writes the request line for a page of items.
pub fn get_items_request(id: u64, search: Option<&str>, limit: usize, offset: usize) -> (r: String)
    ensures
        r@ == items_request_text(id, crate::db::opt_ref_view(search), limit, offset),
{
    let mut out: Vec<char> = Vec::new();
    push_str(&mut out, "{\"method\":\"get_items\",\"id\":");
    push_u64(&mut out, id);
    push_str(&mut out, ",\"search\":");
    match search {
        Some(s) => {
            push_json_string(&mut out, s);
        },
        None => push_str(&mut out, "null"),
    }
    push_str(&mut out, ",\"limit\":");
    push_u64(&mut out, limit as u64);
    push_str(&mut out, ",\"offset\":");
    push_u64(&mut out, offset as u64);
    push_str(&mut out, "}\n");
    let r = string_of(&out);
    assert(r@ =~= items_request_text(id, crate::db::opt_ref_view(search), limit, offset));
    r
}

/// The request line a command becomes under request id `id`.
pub open spec fn command_text(cmd: GuiCommand, id: u64) -> Seq<char> {
    match cmd {
        GuiCommand::GetItems { search, limit, offset } => items_request_text(id, opt_str_view(search), limit, offset),
        GuiCommand::ToggleFavorite(item_id) => "{\"method\":\"toggle_favorite\",\"id\":"@ + int_text(id as int)
            + ",\"item_id\":"@ + int_text(item_id as int) + "}\n"@,
        GuiCommand::DeleteItem(item_id) => "{\"method\":\"delete_item\",\"id\":"@ + int_text(id as int)
            + ",\"item_id\":"@ + int_text(item_id as int) + "}\n"@,
        GuiCommand::ClearHistory => "{\"method\":\"clear_history\",\"id\":"@ + int_text(id as int) + "}\n"@,
    }
}

/// Writes the request line for a command under request id `id`.
pub fn command_to_json(cmd: &GuiCommand, id: u64) -> (r: String)
    ensures
        r@ == command_text(*cmd, id),
{
    match cmd {
        GuiCommand::GetItems { search, limit, offset } => {
            let q: Option<&str> = match search {
                Some(s) => Some(s.as_str()),
                None => None,
            };
            assert(crate::db::opt_ref_view(q) == opt_str_view(*search));
            get_items_request(id, q, *limit, *offset)
        },
        GuiCommand::ToggleFavorite(item_id) => {
            let mut out: Vec<char> = Vec::new();
            push_str(&mut out, "{\"method\":\"toggle_favorite\",\"id\":");
            push_u64(&mut out, id);
            push_str(&mut out, ",\"item_id\":");
            push_i64(&mut out, *item_id);
            push_str(&mut out, "}\n");
            let r = string_of(&out);
            assert(r@ =~= command_text(*cmd, id));
            r
        },
        GuiCommand::DeleteItem(item_id) => {
            let mut out: Vec<char> = Vec::new();
            push_str(&mut out, "{\"method\":\"delete_item\",\"id\":");
            push_u64(&mut out, id);
            push_str(&mut out, ",\"item_id\":");
            push_i64(&mut out, *item_id);
            push_str(&mut out, "}\n");
            let r = string_of(&out);
            assert(r@ =~= command_text(*cmd, id));
            r
        },
        GuiCommand::ClearHistory => {
            let mut out: Vec<char> = Vec::new();
            push_str(&mut out, "{\"method\":\"clear_history\",\"id\":");
            push_u64(&mut out, id);
            push_str(&mut out, "}\n");
            let r = string_of(&out);
            assert(r@ =~= command_text(*cmd, id));
            r
        },
    }
}


/// What the window's connection does after a session with the daemon ends.
#[derive(Debug)]
pub enum LinkAction {
    /// The window stopped sending commands: end the connection for good.
    Stop,
    /// The connection failed: hand `notice` to the window, wait `delay_ms`,
    /// then connect again.
    Reconnect { notice: DaemonMessage, delay_ms: u64 },
}

/// Decides what follows the end of a session: stop after a clean end (the
/// window is gone); after a failure, report the daemon as disconnected and
/// retry in two seconds.
pub fn after_session(failed: bool) -> (r: LinkAction)
    ensures
        !failed ==> (r is Stop),
        failed ==> (r matches LinkAction::Reconnect { notice, delay_ms }
            && notice@ == MessageView::Disconnected && delay_ms == 2000),
{
    if failed {
        LinkAction::Reconnect { notice: DaemonMessage::Disconnected, delay_ms: 2000 }
    } else {
        LinkAction::Stop
    }
}

/// The id after `id`, wrapping to 0 after the largest.
pub open spec fn id_after(id: u64) -> u64 {
    if id == u64::MAX {
        0
    } else {
        (id + 1) as u64
    }
}

/// The request ids of one connection to the daemon: the request sent on
/// connecting takes 1, and every later one the next.
pub struct ClientSession {
    next_id: u64,
}

impl ClientSession {
    /// The id the next request takes.
    pub closed spec fn next_id(&self) -> u64 {
        self.next_id
    }

    /// A fresh connection.
    pub fn new() -> (r: ClientSession)
        ensures
            r.next_id() == 1,
    {
        ClientSession { next_id: 1 }
    }

    /// The request sent right after connecting: the first hundred entries.
    pub fn opening_request(&mut self) -> (r: String)
        ensures
            r@ == items_request_text(old(self).next_id(), None, 100, 0),
            final(self).next_id() == id_after(old(self).next_id()),
    {
        let r = get_items_request(self.next_id, None, 100, 0);
        self.next_id = self.next_id.wrapping_add(1);
        r
    }

    /// The request line for a command from the window.
    pub fn request(&mut self, cmd: &GuiCommand) -> (r: String)
        ensures
            r@ == command_text(*cmd, old(self).next_id()),
            final(self).next_id() == id_after(old(self).next_id()),
    {
        let r = command_to_json(cmd, self.next_id);
        self.next_id = self.next_id.wrapping_add(1);
        r
    }
}


// ─── One request, one line ────────────────────────────────────────────────────

/// A text without a line feed.
pub open spec fn one_line(s: Seq<char>) -> bool {
    forall|i: int| 0 <= i < s.len() ==> s[i] != '\n'
}

pub(crate) proof fn lemma_concat_one_line(a: Seq<char>, b: Seq<char>)
    requires
        one_line(a),
        one_line(b),
    ensures
        one_line(a + b),
{
    assert forall|i: int| 0 <= i < (a + b).len() implies (a + b)[i] != '\n' by {
        if i < a.len() {
            assert((a + b)[i] == a[i]);
        } else {
            assert((a + b)[i] == b[i - a.len()]);
        }
    }
}

proof fn lemma_json_escaped_one_line(s: Seq<char>)
    ensures
        one_line(json_escaped(s)),
    decreases s.len(),
{
    if s.len() > 0 {
        lemma_json_escaped_one_line(s.drop_last());
        let c = s.last();
        if (c as u32) < 0x20 {
            assert((c as u32) / 16 < 2);
        }
        lemma_concat_one_line(json_escaped(s.drop_last()), json_char(c));
    }
}

proof fn lemma_int_text_one_line(i: int)
    ensures
        one_line(int_text(i)),
{
    if i < 0 {
        lemma_digits_one_line((-i) as nat);
        lemma_concat_one_line(seq!['-'], digits((-i) as nat));
    } else {
        lemma_digits_one_line(i as nat);
    }
}

proof fn lemma_digits_one_line(n: nat)
    ensures
        one_line(digits(n)),
    decreases n,
{
    if n >= 10 {
        lemma_digits_one_line(n / 10);
        lemma_concat_one_line(digits(n / 10), seq![digit_char(n % 10)]);
        assert(digits(n) =~= digits(n / 10) + seq![digit_char(n % 10)]);
    }
}

/// A search as it stands in a request, string or `null`, holds no line feed.
pub(crate) proof fn lemma_search_one_line(search: Option<Seq<char>>)
    ensures
        one_line(match search {
            Some(s) => json_string(s),
            None => "null"@,
        }),
{
    reveal_strlit("\"");
    reveal_strlit("null");
    match search {
        Some(s) => {
            lemma_json_escaped_one_line(s);
            lemma_concat_one_line("\""@, json_escaped(s));
            lemma_concat_one_line("\""@ + json_escaped(s), "\""@);
        },
        None => {},
    }
}

/// Every command the window sends is exactly one line: a text without a line
/// feed, then a line feed. A search holding line feeds or other control
/// characters stays on the line, escaped.
pub proof fn law_command_is_one_line(cmd: GuiCommand, id: u64)
    ensures
        command_text(cmd, id).len() > 0,
        command_text(cmd, id).last() == '\n',
        one_line(command_text(cmd, id).drop_last()),
{
    reveal_strlit("{\"method\":\"get_items\",\"id\":");
    reveal_strlit(",\"search\":");
    reveal_strlit(",\"limit\":");
    reveal_strlit(",\"offset\":");
    reveal_strlit("}\n");
    reveal_strlit("{\"method\":\"toggle_favorite\",\"id\":");
    reveal_strlit("{\"method\":\"delete_item\",\"id\":");
    reveal_strlit("{\"method\":\"clear_history\",\"id\":");
    reveal_strlit(",\"item_id\":");
    let t = command_text(cmd, id);
    lemma_int_text_one_line(id as int);
    match cmd {
        GuiCommand::GetItems { search, limit, offset } => {
            let q = match opt_str_view(search) {
                Some(s) => json_string(s),
                None => "null"@,
            };
            lemma_search_one_line(opt_str_view(search));
            lemma_int_text_one_line(limit as int);
            lemma_int_text_one_line(offset as int);
            let body = "{\"method\":\"get_items\",\"id\":"@ + int_text(id as int) + ",\"search\":"@ + q
                + ",\"limit\":"@ + int_text(limit as int) + ",\"offset\":"@ + int_text(offset as int) + seq!['}'];
            assert(t =~= body.push('\n'));
            lemma_concat_one_line("{\"method\":\"get_items\",\"id\":"@, int_text(id as int));
            lemma_concat_one_line("{\"method\":\"get_items\",\"id\":"@ + int_text(id as int), ",\"search\":"@);
            lemma_concat_one_line("{\"method\":\"get_items\",\"id\":"@ + int_text(id as int) + ",\"search\":"@, q);
            let p1 = "{\"method\":\"get_items\",\"id\":"@ + int_text(id as int) + ",\"search\":"@ + q;
            lemma_concat_one_line(p1, ",\"limit\":"@);
            lemma_concat_one_line(p1 + ",\"limit\":"@, int_text(limit as int));
            lemma_concat_one_line(p1 + ",\"limit\":"@ + int_text(limit as int), ",\"offset\":"@);
            lemma_concat_one_line(p1 + ",\"limit\":"@ + int_text(limit as int) + ",\"offset\":"@, int_text(offset as int));
            lemma_concat_one_line(p1 + ",\"limit\":"@ + int_text(limit as int) + ",\"offset\":"@ + int_text(offset as int), seq!['}']);
            assert(t.drop_last() =~= body);
        },
        GuiCommand::ToggleFavorite(item_id) => {
            lemma_int_text_one_line(item_id as int);
            let a = "{\"method\":\"toggle_favorite\",\"id\":"@ + int_text(id as int);
            lemma_concat_one_line("{\"method\":\"toggle_favorite\",\"id\":"@, int_text(id as int));
            lemma_concat_one_line(a, ",\"item_id\":"@);
            lemma_concat_one_line(a + ",\"item_id\":"@, int_text(item_id as int));
            lemma_concat_one_line(a + ",\"item_id\":"@ + int_text(item_id as int), seq!['}']);
            let body = a + ",\"item_id\":"@ + int_text(item_id as int) + seq!['}'];
            assert(t =~= body.push('\n'));
            assert(t.drop_last() =~= body);
        },
        GuiCommand::DeleteItem(item_id) => {
            lemma_int_text_one_line(item_id as int);
            let a = "{\"method\":\"delete_item\",\"id\":"@ + int_text(id as int);
            lemma_concat_one_line("{\"method\":\"delete_item\",\"id\":"@, int_text(id as int));
            lemma_concat_one_line(a, ",\"item_id\":"@);
            lemma_concat_one_line(a + ",\"item_id\":"@, int_text(item_id as int));
            lemma_concat_one_line(a + ",\"item_id\":"@ + int_text(item_id as int), seq!['}']);
            let body = a + ",\"item_id\":"@ + int_text(item_id as int) + seq!['}'];
            assert(t =~= body.push('\n'));
            assert(t.drop_last() =~= body);
        },
        GuiCommand::ClearHistory => {
            let a = "{\"method\":\"clear_history\",\"id\":"@ + int_text(id as int);
            lemma_concat_one_line("{\"method\":\"clear_history\",\"id\":"@, int_text(id as int));
            lemma_concat_one_line(a, seq!['}']);
            let body = a + seq!['}'];
            assert(t =~= body.push('\n'));
            assert(t.drop_last() =~= body);
        },
    }
}

} // verus!
