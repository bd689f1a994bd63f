//! From clipboard change to stored entry: which session is running, when a
//! changed clipboard counts as new content, how a payload is classified, under
//! which file name an image is kept, and what storing it notifies.
use vstd::prelude::*;
use vstd::string::StringSliceAdditionalSpecFns;
use vstd::utf8::{decode_utf8, encode_utf8, valid_utf8};

use crate::db::{
    age_cut, has_id, id_pos, opt_str_view, trimmed, upsert_outcome, ClipItem, ClipRow, Database, NewItem, NewRow, StoreError,
};
use crate::hash::{hash_bytes, hex_lower, sha256};
use crate::mime::{ownership_mime, ownership_type, refine_text_mime, refined_text_mime, is_text_mime, text_mime};
use crate::protocol::Event;
use crate::text::{blank, chars_of, has_prefix, is_blank, str_starts_with, string_from, string_of};

verus! {

// ─── Clipboard events ─────────────────────────────────────────────────────────

/// A clipboard change as the monitor saw it.
#[derive(Debug, Clone)]
pub struct ClipboardEvent {
    /// SHA-256 of the payload in hex, used for deduplication.
    pub hash: String,
    /// The raw payload.
    pub data: Vec<u8>,
    /// The MIME type the payload was read as.
    pub mime_type: String,
}

/// The kind of graphical session the daemon runs in.
#[derive(Debug, Clone, Copy, PartialEq, Eq, Structural)]
pub enum SessionType {
    Wayland,
    X11,
}

/// Unicode lowercase mapping of a string.
pub uninterp spec fn unicode_lowercase(s: Seq<char>) -> Seq<char>;

/// std's `str::to_lowercase`. Claimed: the result is the Unicode lowercase
/// mapping of `s`; the mapping itself is left unstated (named `unicode_lowercase`).
#[verifier::external_body]
fn to_lowercase(s: &str) -> (r: String)
    ensures
        r@ == unicode_lowercase(s@),
{
    s.to_lowercase()
}

/// The session type given whether `WAYLAND_DISPLAY` is set and the lowercased
/// value of `XDG_SESSION_TYPE` (empty when unset).
pub open spec fn session_of(wayland_display_set: bool, session_type_lower: Seq<char>) -> SessionType {
    if wayland_display_set || session_type_lower == "wayland"@ {
        SessionType::Wayland
    } else {
        SessionType::X11
    }
}

/// The session type given whether `WAYLAND_DISPLAY` is set and the value of
/// `XDG_SESSION_TYPE` (empty when unset), compared in lowercase.
pub open spec fn session_kind(wayland_display_set: bool, xdg_session_type: Seq<char>) -> SessionType {
    session_of(wayland_display_set, unicode_lowercase(xdg_session_type))
}

/// Decides the session type from `WAYLAND_DISPLAY` being set and the already
/// lowercased session type: Wayland when either says so.
pub fn session_from_lowered(wayland_display_set: bool, session_type_lower: &str) -> (r: SessionType)
    ensures
        r == session_of(wayland_display_set, session_type_lower@),
{
    if wayland_display_set || crate::text::str_eq(session_type_lower, "wayland") {
        SessionType::Wayland
    } else {
        SessionType::X11
    }
}

/// Decides the session type from the two environment facts the daemon reads.
pub fn detect_session(wayland_display_set: bool, xdg_session_type: &str) -> (r: SessionType)
    ensures
        r == session_kind(wayland_display_set, xdg_session_type@),
{
    let lower = to_lowercase(xdg_session_type);
    session_from_lowered(wayland_display_set, lower.as_str())
}

// ─── Offers on the Wayland data device ────────────────────────────────────────

/// What the monitor has heard of the offer being announced.
pub struct OfferState {
    pending: bool,
    pending_mimes: Vec<String>,
}

impl OfferState {
    /// Whether an offer has been announced and not yet selected.
    pub closed spec fn has_pending(&self) -> bool {
        self.pending
    }

    /// The MIME types announced for the pending offer, in order.
    pub closed spec fn mimes(&self) -> Seq<Seq<char>> {
        self.pending_mimes@.map_values(|m: String| m@)
    }

    /// No offer yet.
    pub fn new() -> (r: OfferState)
        ensures
            !r.has_pending(),
            r.mimes() == Seq::<Seq<char>>::empty(),
    {
        let r = OfferState { pending: false, pending_mimes: Vec::new() };
        assert(r.mimes() =~= Seq::<Seq<char>>::empty());
        r
    }

    /// A new offer is announced. Returns whether an earlier, unselected offer
    /// is dropped by it (and must be destroyed).
    pub fn data_offer(&mut self) -> (r: bool)
        ensures
            r == old(self).has_pending(),
            final(self).has_pending(),
            final(self).mimes() == Seq::<Seq<char>>::empty(),
    {
        let dropped = self.pending;
        self.pending = true;
        self.pending_mimes = Vec::new();
        assert(self.mimes() =~= Seq::<Seq<char>>::empty());
        dropped
    }

    /// The pending offer announces one more MIME type.
    pub fn offer_mime(&mut self, mime_type: String)
        ensures
            final(self).has_pending() == old(self).has_pending(),
            final(self).mimes() == old(self).mimes().push(mime_type@),
    {
        let ghost m = mime_type@;
        self.pending_mimes.push(mime_type);
        assert(self.mimes() =~= old(self).mimes().push(m));
    }

    /// The selection changes. With an offer, the announced MIME types are
    /// handed over for reading and the offer stops being pending; without one
    /// (the clipboard was emptied) nothing changes.
    pub fn selection(&mut self, has_offer: bool) -> (r: Option<Vec<String>>)
        ensures
            has_offer ==> (r matches Some(ms) && ms@.map_values(|m: String| m@) == old(self).mimes()
                && !final(self).has_pending() && final(self).mimes() == Seq::<Seq<char>>::empty()),
            !has_offer ==> r is None && final(self).has_pending() == old(self).has_pending()
                && final(self).mimes() == old(self).mimes(),
    {
        if has_offer {
            let mut taken: Vec<String> = Vec::new();
            std::mem::swap(&mut taken, &mut self.pending_mimes);
            self.pending = false;
            assert(self.mimes() =~= Seq::<Seq<char>>::empty());
            Some(taken)
        } else {
            None
        }
    }
}

// ─── Deduplicating captures ───────────────────────────────────────────────────

/// The time from `then` to `now`, zero when `then` is later (as std's
/// `Instant::duration_since` measures it).
pub open spec fn elapsed(now: u64, then: u64) -> int {
    if now >= then {
        now - then
    } else {
        0
    }
}

/// Whether `now` falls inside the debounce window of `debounce_ms` after the
/// last capture.
pub open spec fn in_window(last_capture: Option<u64>, now: u64, debounce_ms: u64) -> bool {
    match last_capture {
        Some(t) => elapsed(now, t) < debounce_ms,
        None => false,
    }
}

/// Whether `now` falls inside the debounce window after `last_capture`.
fn within_window(last_capture: Option<u64>, now: u64, debounce_ms: u64) -> (r: bool)
    ensures
        r == in_window(last_capture, now, debounce_ms),
{
    match last_capture {
        Some(t) => {
            let gap: u64 = if now >= t { now - t } else { 0 };
            gap < debounce_ms
        },
        None => false,
    }
}

/// The clipboard monitor's memory of the last payload it reported, and the
/// least time between two reports.
pub struct ClipboardMonitor {
    last_hash: String,
    last_capture_ms: Option<u64>,
    debounce_ms: u64,
}

impl ClipboardMonitor {
    /// The hash of the last reported payload (empty before the first).
    pub closed spec fn last_hash(&self) -> Seq<char> {
        self.last_hash@
    }

    /// When the last payload was reported, in milliseconds on the monitor's clock.
    pub closed spec fn last_capture(&self) -> Option<u64> {
        self.last_capture_ms
    }

    /// The least time between two reports, in milliseconds.
    pub closed spec fn debounce(&self) -> u64 {
        self.debounce_ms
    }

    /// A monitor that has reported nothing yet and keeps reports at least
    /// `debounce_ms` apart.
    pub fn new(debounce_ms: u64) -> (r: ClipboardMonitor)
        ensures
            r.last_hash() == Seq::<char>::empty(),
            r.last_capture() is None,
            r.debounce() == debounce_ms,
    {
        ClipboardMonitor { last_hash: String::new(), last_capture_ms: None, debounce_ms }
    }

    /// The clipboard was read at `now_ms` as `data` of type `mime_type`, whose
    /// content hash is `hash`. Reports it unless it is empty, comes within the
    /// debounce window after the last report, or has the hash of the last
    /// payload reported.
    pub fn observe_hashed(&mut self, data: Vec<u8>, hash: String, mime_type: String, now_ms: u64) -> (r: Option<ClipboardEvent>)
        ensures
            final(self).debounce() == old(self).debounce(),
            (data@.len() == 0 || in_window(old(self).last_capture(), now_ms, old(self).debounce())
                || hash@ == old(self).last_hash()) ==> (r is None
                && final(self).last_hash() == old(self).last_hash()
                && final(self).last_capture() == old(self).last_capture()),
            !(data@.len() == 0 || in_window(old(self).last_capture(), now_ms, old(self).debounce())
                || hash@ == old(self).last_hash()) ==> (r matches Some(ev)
                && ev.hash@ == hash@ && ev.data@ == data@ && ev.mime_type@ == mime_type@
                && final(self).last_hash() == hash@
                && final(self).last_capture() == Some(now_ms)),
    {
        if data.len() == 0 {
            return None;
        }
        if within_window(self.last_capture_ms, now_ms, self.debounce_ms) {
            return None;
        }
        if crate::text::str_eq(hash.as_str(), self.last_hash.as_str()) {
            return None;
        }
        self.last_hash = hash.clone();
        self.last_capture_ms = Some(now_ms);
        Some(ClipboardEvent { hash, data, mime_type })
    }

    /// The clipboard was read at `now_ms` as `data` of type `mime_type`.
    /// Reports it unless it is empty, comes within the debounce window after
    /// the last report, or has the same hash as the last payload reported.
    pub fn observe(&mut self, data: Vec<u8>, mime_type: String, now_ms: u64) -> (r: Option<ClipboardEvent>)
        ensures
            final(self).debounce() == old(self).debounce(),
            (data@.len() == 0 || in_window(old(self).last_capture(), now_ms, old(self).debounce())
                || hex_lower(sha256(data@)) == old(self).last_hash()) ==> (r is None
                && final(self).last_hash() == old(self).last_hash()
                && final(self).last_capture() == old(self).last_capture()),
            !(data@.len() == 0 || in_window(old(self).last_capture(), now_ms, old(self).debounce())
                || hex_lower(sha256(data@)) == old(self).last_hash()) ==> (r matches Some(ev)
                && ev.hash@ == hex_lower(sha256(data@)) && ev.data@ == data@ && ev.mime_type@ == mime_type@
                && final(self).last_hash() == hex_lower(sha256(data@))
                && final(self).last_capture() == Some(now_ms)),
    {
        let hash = hash_bytes(data.as_slice());
        self.observe_hashed(data, hash, mime_type, now_ms)
    }
}

/// The X11 watch over the CLIPBOARD selection: it asks for the content of a
/// change unless it comes within the debounce window after the last capture,
/// and reports content that is not empty and differs from the last capture.
pub struct SelectionWatch {
    last_hash: String,
    last_capture_ms: Option<u64>,
    debounce_ms: u64,
}

impl SelectionWatch {
    /// The hash of the last capture (empty before the first).
    pub closed spec fn last_hash(&self) -> Seq<char> {
        self.last_hash@
    }

    /// When the last capture was made, in milliseconds on the watch's clock.
    pub closed spec fn last_capture(&self) -> Option<u64> {
        self.last_capture_ms
    }

    /// The least time between two captures, in milliseconds.
    pub closed spec fn debounce(&self) -> u64 {
        self.debounce_ms
    }

    /// A watch that has captured nothing yet and keeps captures at least
    /// `debounce_ms` apart.
    pub fn new(debounce_ms: u64) -> (r: SelectionWatch)
        ensures
            r.last_hash() == Seq::<char>::empty(),
            r.last_capture() is None,
            r.debounce() == debounce_ms,
    {
        SelectionWatch { last_hash: String::new(), last_capture_ms: None, debounce_ms }
    }

    /// The selection changed at `now_ms`: whether to ask for its content (not
    /// within the debounce window after the last capture).
    pub fn should_fetch(&self, now_ms: u64) -> (r: bool)
        ensures
            r == !in_window(self.last_capture(), now_ms, self.debounce()),
    {
        !within_window(self.last_capture_ms, now_ms, self.debounce_ms)
    }

    /// The selection's content arrived at `now_ms` with content hash `hash`:
    /// reports it as UTF-8 text unless it is empty or has the hash of the last
    /// capture.
    pub fn content_hashed(&mut self, data: Vec<u8>, hash: String, now_ms: u64) -> (r: Option<ClipboardEvent>)
        ensures
            final(self).debounce() == old(self).debounce(),
            (data@.len() == 0 || hash@ == old(self).last_hash()) ==> (r is None
                && final(self).last_hash() == old(self).last_hash()
                && final(self).last_capture() == old(self).last_capture()),
            !(data@.len() == 0 || hash@ == old(self).last_hash()) ==> (r matches Some(ev)
                && ev.hash@ == hash@ && ev.data@ == data@
                && ev.mime_type@ == "text/plain;charset=utf-8"@
                && final(self).last_hash() == hash@
                && final(self).last_capture() == Some(now_ms)),
    {
        if data.len() == 0 {
            return None;
        }
        if crate::text::str_eq(hash.as_str(), self.last_hash.as_str()) {
            return None;
        }
        self.last_hash = hash.clone();
        self.last_capture_ms = Some(now_ms);
        Some(ClipboardEvent { hash, data, mime_type: string_from("text/plain;charset=utf-8") })
    }

    /// The selection's content arrived at `now_ms`: reports it as UTF-8 text
    /// unless it is empty or has the hash of the last capture.
    pub fn content(&mut self, data: Vec<u8>, now_ms: u64) -> (r: Option<ClipboardEvent>)
        ensures
            final(self).debounce() == old(self).debounce(),
            (data@.len() == 0 || hex_lower(sha256(data@)) == old(self).last_hash()) ==> (r is None
                && final(self).last_hash() == old(self).last_hash()
                && final(self).last_capture() == old(self).last_capture()),
            !(data@.len() == 0 || hex_lower(sha256(data@)) == old(self).last_hash()) ==> (r matches Some(ev)
                && ev.hash@ == hex_lower(sha256(data@)) && ev.data@ == data@
                && ev.mime_type@ == "text/plain;charset=utf-8"@
                && final(self).last_hash() == hex_lower(sha256(data@))
                && final(self).last_capture() == Some(now_ms)),
    {
        let hash = hash_bytes(data.as_slice());
        self.content_hashed(data, hash, now_ms)
    }
}

// ─── Classifying a payload ────────────────────────────────────────────────────

/// Why a clipboard payload is not stored.
#[derive(Debug, Clone, Copy, PartialEq, Eq, Structural)]
pub enum SkipReason {
    /// An image while image capture is turned off.
    ImagesDisabled,
    /// An image above the configured size limit.
    ImageTooLarge,
    /// Text that is empty or only whitespace.
    BlankText,
    /// A text type whose bytes are not UTF-8.
    NotUtf8,
}

/// How a clipboard payload is stored.
#[derive(Debug)]
pub enum Capture {
    Skip(SkipReason),
    /// Text content, with its refined MIME type.
    Text { content: String, mime_type: String },
    /// A binary payload (an image) kept in a file, under its own MIME type.
    Blob { mime_type: String },
}

/// The mathematical value of a [`Capture`].
pub enum CapturePlan {
    Skip(SkipReason),
    Text { content: Seq<char>, mime_type: Seq<char> },
    Blob { mime_type: Seq<char> },
}

impl View for Capture {
    type V = CapturePlan;

    open spec fn view(&self) -> CapturePlan {
        match self {
            Capture::Skip(r) => CapturePlan::Skip(*r),
            Capture::Text { content, mime_type } => CapturePlan::Text { content: content@, mime_type: mime_type@ },
            Capture::Blob { mime_type } => CapturePlan::Blob { mime_type: mime_type@ },
        }
    }
}

/// How a payload of type `mime` is stored: images are skipped when image
/// capture is off or when they are above `max_image_bytes`; text types must be
/// UTF-8 and not blank, and are stored as text under a refined type; anything
/// else is kept as a file.
pub open spec fn capture_plan(data: Seq<u8>, mime: Seq<char>, max_image_bytes: u64, enable_images: bool) -> CapturePlan {
    if has_prefix(mime, "image/"@) && !enable_images {
        CapturePlan::Skip(SkipReason::ImagesDisabled)
    } else if has_prefix(mime, "image/"@) && data.len() > max_image_bytes {
        CapturePlan::Skip(SkipReason::ImageTooLarge)
    } else if text_mime(mime) {
        if !valid_utf8(data) {
            CapturePlan::Skip(SkipReason::NotUtf8)
        } else if blank(decode_utf8(data)) {
            CapturePlan::Skip(SkipReason::BlankText)
        } else {
            CapturePlan::Text { content: decode_utf8(data), mime_type: refined_text_mime(decode_utf8(data)) }
        }
    } else {
        CapturePlan::Blob { mime_type: mime }
    }
}

/// std's `String::from_utf8`. Claimed: it succeeds exactly on valid UTF-8 and
/// then holds the decoded characters.
#[verifier::external_body]
fn utf8_decode(bytes: Vec<u8>) -> (r: Option<String>)
    ensures
        r is Some <==> valid_utf8(bytes@),
        r matches Some(s) ==> s@ == decode_utf8(bytes@),
{
    String::from_utf8(bytes).ok()
}

/// Decides how a captured clipboard payload is stored.
pub fn plan_capture(event: &ClipboardEvent, max_image_bytes: u64, enable_images: bool) -> (r: Capture)
    ensures
        r@ == capture_plan(event.data@, event.mime_type@, max_image_bytes, enable_images),
{
    let is_image = str_starts_with(event.mime_type.as_str(), "image/");
    if is_image && !enable_images {
        return Capture::Skip(SkipReason::ImagesDisabled);
    }
    if is_image && event.data.len() as u64 > max_image_bytes {
        return Capture::Skip(SkipReason::ImageTooLarge);
    }
    if is_text_mime(event.mime_type.as_str()) {
        match utf8_decode(event.data.clone()) {
            Some(s) => {
                if is_blank(&chars_of(s.as_str())) {
                    Capture::Skip(SkipReason::BlankText)
                } else {
                    let refined = string_from(refine_text_mime(s.as_str()));
                    Capture::Text { content: s, mime_type: refined }
                }
            },
            None => Capture::Skip(SkipReason::NotUtf8),
        }
    } else {
        Capture::Blob { mime_type: event.mime_type.clone() }
    }
}

// ─── Image files ──────────────────────────────────────────────────────────────

/// The position of the first `c` in `s`, or its length when there is none.
pub open spec fn index_of(s: Seq<char>, c: char) -> int
    decreases s.len(),
{
    if s.len() == 0 {
        0
    } else if s[0] == c {
        0
    } else {
        1 + index_of(s.drop_first(), c)
    }
}

/// The file extension for an image type: the subtype, up to any `+suffix`
/// (`image/svg+xml` gives `svg`), or `bin` when the type has no subtype.
pub open spec fn blob_extension(mime: Seq<char>) -> Seq<char> {
    let i = index_of(mime, '/');
    if i == mime.len() {
        "bin"@
    } else {
        let rest = mime.skip(i + 1);
        let sub = rest.take(index_of(rest, '/'));
        sub.take(index_of(sub, '+'))
    }
}

/// The file name an image is kept under: the first sixteen bytes of its hash,
/// a dot, and the extension.
pub open spec fn blob_name(hash: Seq<char>, mime: Seq<char>) -> Seq<char> {
    decode_utf8(encode_utf8(hash).take(16)) + "."@ + blob_extension(mime)
}

/// The position of the first `c` in `cs`, or its length.
pub fn find_char(cs: &Vec<char>, c: char) -> (r: usize)
    ensures
        r == index_of(cs@, c),
        r <= cs.len(),
{
    let mut i: usize = 0;
    assert(cs@.skip(0) =~= cs@);
    while i < cs.len() && cs[i] != c
        invariant
            i <= cs.len(),
            index_of(cs@, c) == i + index_of(cs@.skip(i as int), c),
        decreases cs.len() - i,
    {
        assert(cs@.skip(i as int).drop_first() =~= cs@.skip(i as int + 1));
        i += 1;
    }
    proof {
        if i < cs.len() {
            assert(cs@.skip(i as int)[0] == cs@[i as int]);
        }
        lemma_index_of_bound(cs@.skip(i as int), c);
    }
    i
}

proof fn lemma_index_of_bound(s: Seq<char>, c: char)
    ensures
        0 <= index_of(s, c) <= s.len(),
    decreases s.len(),
{
    if s.len() > 0 && s[0] != c {
        lemma_index_of_bound(s.drop_first(), c);
    }
}

/// The file extension for an image of this MIME type.
pub fn image_extension(mime: &str) -> (r: String)
    ensures
        r@ == blob_extension(mime@),
{
    let cs = chars_of(mime);
    let i = find_char(&cs, '/');
    if i == cs.len() {
        return string_from("bin");
    }
    let rest = crate::text::slice_chars(&cs, i + 1, cs.len());
    assert(rest@ =~= cs@.skip(i as int + 1));
    let j = find_char(&rest, '/');
    let sub = crate::text::slice_chars(&rest, 0, j);
    assert(sub@ =~= rest@.take(j as int));
    let k = find_char(&sub, '+');
    let ext = crate::text::slice_chars(&sub, 0, k);
    assert(ext@ =~= sub@.take(k as int));
    string_of(&ext)
}

/// The name of the file that keeps an image payload.
pub fn blob_file_name(hash: &str, mime: &str) -> (r: String)
    requires
        hash.spec_bytes().len() >= 16,
        vstd::utf8::is_char_boundary(hash.spec_bytes(), 16),
    ensures
        r@ == blob_name(hash@, mime@),
{
    let (head, _) = hash.split_at(16);
    proof {
        vstd::utf8::encode_utf8_decode_utf8(head@);
        assert(head.spec_bytes() == encode_utf8(head@));
        assert(hash.spec_bytes() == encode_utf8(hash@));
    }
    let name = string_from(head).concat(".");
    let ext = image_extension(mime);
    name.concat(ext.as_str())
}

// ─── Storing a capture ────────────────────────────────────────────────────────

/// The entry a capture records, given the image's file path when it has one.
pub open spec fn capture_row(event_hash: Seq<char>, size: usize, plan: CapturePlan, blob_path: Option<Seq<char>>) -> NewRow {
    match plan {
        CapturePlan::Text { content, mime_type } => NewRow {
            hash: event_hash,
            content: Some(content),
            blob_path: None,
            mime_type,
            byte_size: size,
        },
        CapturePlan::Blob { mime_type } => NewRow {
            hash: event_hash,
            content: None,
            blob_path,
            mime_type,
            byte_size: size,
        },
        CapturePlan::Skip(_) => NewRow {
            hash: event_hash,
            content: None,
            blob_path: None,
            mime_type: Seq::empty(),
            byte_size: size,
        },
    }
}

/// What storing a capture led to.
#[derive(Debug)]
pub struct Stored {
    /// The store's answer: the entry id and whether it is new.
    pub outcome: Result<(i64, bool), StoreError>,
    /// The notification for interface clients.
    pub notify: Option<Event>,
    /// The payload and type to take clipboard ownership with (Wayland only).
    pub ownership: Option<(Vec<u8>, String)>,
}

pub open spec fn event_view(e: Option<Event>) -> Option<(bool, i64, Option<ClipRow>)> {
    match e {
        Some(Event::ItemAdded { item }) => Some((true, item.id, Some(item@))),
        Some(Event::ItemUpdated { item_id }) => Some((false, item_id, None)),
        _ => None,
    }
}

/// Records a classified capture at time `now`, trims the history to
/// `max_items` unprotected entries, clears unprotected entries not used for
/// `auto_clear_days` days, and says whom to notify: a new entry still present
/// afterwards is announced whole, a refreshed one by id. On Wayland the daemon
/// takes ownership of text and image payloads.
pub fn store_capture(
    db: &mut Database,
    event: &ClipboardEvent,
    capture: &Capture,
    blob_path: Option<String>,
    max_items: usize,
    auto_clear_days: Option<u32>,
    now: i64,
    session: SessionType,
) -> (r: Stored)
    requires
        old(db).wf(),
        !(capture is Skip),
        event.data@.len() <= i64::MAX,
    ensures
        final(db).wf(),
        final(db).settings() == old(db).settings(),
        ({
            let item = capture_row(event.hash@, event.data@.len() as usize, capture@, opt_str_view(blob_path));
            let (res, rows1, last1) = upsert_outcome(old(db).rows(), old(db).last_id(), item, now);
            &&& r.outcome == res
            &&& final(db).last_id() == last1
            &&& match res {
                Ok((id, is_new)) => {
                    &&& final(db).rows() == age_cut(trimmed(rows1, max_items as nat), now, auto_clear_days)
                    &&& event_view(r.notify) == if is_new {
                        if has_id(final(db).rows(), id) {
                            Some((true, id, Some(final(db).rows()[id_pos(final(db).rows(), id)])))
                        } else {
                            None
                        }
                    } else {
                        Some((false, id, None))
                    }
                    &&& match r.ownership {
                        Some((data, mime)) => session == SessionType::Wayland && data@ == event.data@
                            && ownership_type(event.mime_type@) == Some(mime@),
                        None => session != SessionType::Wayland || ownership_type(event.mime_type@) == None::<Seq<char>>,
                    }
                },
                Err(_) => {
                    &&& final(db).rows() == rows1
                    &&& r.notify is None
                    &&& r.ownership is None
                },
            }
        }),
{
    let blob_ref: Option<&str> = match &blob_path {
        Some(p) => Some(p.as_str()),
        None => None,
    };
    let outcome = match capture {
        Capture::Text { content, mime_type } => {
            let item = NewItem {
                hash: event.hash.as_str(),
                content: Some(content.as_str()),
                blob_path: None,
                mime_type: mime_type.as_str(),
                byte_size: event.data.len(),
            };
            db.upsert_item(item, now)
        },
        Capture::Blob { mime_type } => {
            let item = NewItem {
                hash: event.hash.as_str(),
                content: None,
                blob_path: blob_ref,
                mime_type: mime_type.as_str(),
                byte_size: event.data.len(),
            };
            db.upsert_item(item, now)
        },
        Capture::Skip(_) => {
            return Stored { outcome: Err(StoreError::NoRows), notify: None, ownership: None };
        },
    };
    match outcome {
        Ok((id, is_new)) => {
            db.enforce_limit(max_items);
            db.clear_older_than(now, auto_clear_days);
            let ownership = if session == SessionType::Wayland {
                match ownership_mime(event.mime_type.as_str()) {
                    Some(m) => Some((event.data.clone(), m)),
                    None => None,
                }
            } else {
                None
            };
            let notify = if is_new {
                match db.get_item(id) {
                    Some(item) => Some(Event::ItemAdded { item }),
                    None => None,
                }
            } else {
                Some(Event::ItemUpdated { item_id: id })
            };
            Stored { outcome, notify, ownership }
        },
        Err(e) => Stored { outcome, notify: None, ownership: None },
    }
}

} // verus!
