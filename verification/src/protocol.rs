//! The daemon's request/response protocol and how it answers each request
//! from the history store.
use vstd::prelude::*;

use crate::text::string_from;

use crate::db::{
    favorite_toggled, has_id, opt_str_view, query_active, id_pos, matched, page, pin_toggled, rows_of, setting_or, trimmed,
    ClipItem, ClipRow, Database, StoreError,
};

verus! {

/// The daemon's version, reported by `status`.
pub const VERSION: &'static str = "0.2.0";

// ─── Requests (interface → daemon) ────────────────────────────────────────────

/// A request from an interface client.
#[derive(Debug)]
pub enum Request {
    /// A page of the history, optionally filtered by a full-text search.
    GetItems { id: u64, search: Option<String>, limit: Option<usize>, offset: Option<usize> },
    /// One entry by id.
    GetItem { id: u64, item_id: i64 },
    /// Flips the favorite mark; answers the new value.
    ToggleFavorite { id: u64, item_id: i64 },
    /// Flips the pinned mark; answers the new value.
    TogglePinned { id: u64, item_id: i64 },
    /// Removes an entry.
    DeleteItem { id: u64, item_id: i64 },
    /// Removes every entry that is neither favorite nor pinned.
    ClearHistory { id: u64 },
    /// Reads a setting.
    GetSetting { id: u64, key: String },
    /// Writes a setting.
    SetSetting { id: u64, key: String, value: String },
    /// The daemon's status.
    Status { id: u64 },
}

impl Request {
    pub open spec fn spec_id(&self) -> u64 {
        match self {
            Request::GetItems { id, .. } => *id,
            Request::GetItem { id, .. } => *id,
            Request::ToggleFavorite { id, .. } => *id,
            Request::TogglePinned { id, .. } => *id,
            Request::DeleteItem { id, .. } => *id,
            Request::ClearHistory { id } => *id,
            Request::GetSetting { id, .. } => *id,
            Request::SetSetting { id, .. } => *id,
            Request::Status { id } => *id,
        }
    }

    /// The client's id for this request, echoed in the answer.
    pub fn request_id(&self) -> (r: u64)
        ensures
            r == self.spec_id(),
    {
        match self {
            Request::GetItems { id, .. } => *id,
            Request::GetItem { id, .. } => *id,
            Request::ToggleFavorite { id, .. } => *id,
            Request::TogglePinned { id, .. } => *id,
            Request::DeleteItem { id, .. } => *id,
            Request::ClearHistory { id } => *id,
            Request::GetSetting { id, .. } => *id,
            Request::SetSetting { id, .. } => *id,
            Request::Status { id } => *id,
        }
    }
}

// ─── Responses (daemon → interface) ───────────────────────────────────────────

/// A message from the daemon to a client.
#[derive(Debug)]
pub enum Response {
    /// The answer to a request.
    Result { id: u64, data: ResponseData },
    /// A request that failed.
    Error { id: u64, message: String },
    /// A notification pushed to every client, with no request id.
    Event { event: Event },
}

/// The payload of a successful answer.
#[derive(Debug)]
pub enum ResponseData {
    Items { items: Vec<ClipItem>, total: i64 },
    Item { item: Option<ClipItem> },
    Favorite { item_id: i64, is_favorite: bool },
    Pinned { item_id: i64, is_pinned: bool },
    Deleted { item_id: i64 },
    Cleared { removed: usize },
    Setting { key: String, value: String },
    SettingSet { key: String },
    Status { version: &'static str, item_count: i64, uptime_secs: u64 },
    /// A bare acknowledgement.
    Acknowledged,
}

/// A notification the daemon pushes to every connected client.
#[derive(Debug)]
pub enum Event {
    /// A new entry was captured.
    ItemAdded { item: ClipItem },
    /// A stored entry was used again.
    ItemUpdated { item_id: i64 },
    /// An entry was removed.
    ItemDeleted { item_id: i64 },
    /// The history was cleared.
    HistoryCleared,
    /// A bare acknowledgement.
    Acknowledged,
}

/// The page size a `get_items` request asks for: 50 by default, at most 200.
pub open spec fn page_limit(limit: Option<usize>) -> usize {
    match limit {
        Some(l) => if l < 200 { l } else { 200 },
        None => 50,
    }
}

pub open spec fn item_opt_view(o: Option<ClipItem>) -> Option<ClipRow> {
    match o {
        Some(x) => Some(x@),
        None => None,
    }
}

/// Answers one request from the store. `ranked` holds the full-text index's
/// matches (best first) for a `get_items` request with a non-blank search, and
/// `uptime_secs` how long the daemon has run. Failures of the store answer
/// their message.
/// What answering `req` does: `r` is the answer and `after` the store that
/// results from `before`, given the full-text matches `ranked` and the uptime.
pub open spec fn answered(req: Request, before: Database, after: Database, ranked: Seq<i64>, uptime: u64, r: Result<ResponseData, String>) -> bool {
    match req {
        Request::GetItems { search, limit, offset, .. } => {
            &&& after.rows() == before.rows()
            &&& after.settings() == before.settings()
            &&& match r {
                Ok(ResponseData::Items { items, total }) => {
                    &&& total == before.rows().len()
                    &&& rows_of(items@) == if query_active(opt_str_view(search)) {
                        page(matched(before.rows(), ranked), page_limit(limit), match offset { Some(o) => o, None => 0 })
                    } else {
                        page(before.rows(), page_limit(limit), match offset { Some(o) => o, None => 0 })
                    }
                },
                _ => false,
            }
        },
        Request::GetItem { item_id, .. } => {
            &&& after.rows() == before.rows()
            &&& after.settings() == before.settings()
            &&& r matches Ok(ResponseData::Item { item }) && item_opt_view(item) == if has_id(before.rows(), item_id) {
                Some(before.rows()[id_pos(before.rows(), item_id)])
            } else {
                None
            }
        },
        Request::ToggleFavorite { item_id, .. } => {
            &&& after.settings() == before.settings()
            &&& if has_id(before.rows(), item_id) {
                &&& r == Ok::<ResponseData, String>(ResponseData::Favorite {
                    item_id,
                    is_favorite: !before.rows()[id_pos(before.rows(), item_id)].is_favorite,
                })
                &&& after.rows() == favorite_toggled(before.rows(), item_id)
            } else {
                &&& r matches Err(m) && m@ == StoreError::NoRows.spec_message()
                &&& after.rows() == before.rows()
            }
        },
        Request::TogglePinned { item_id, .. } => {
            &&& after.settings() == before.settings()
            &&& if has_id(before.rows(), item_id) {
                &&& r == Ok::<ResponseData, String>(ResponseData::Pinned {
                    item_id,
                    is_pinned: !before.rows()[id_pos(before.rows(), item_id)].is_pinned,
                })
                &&& after.rows() == pin_toggled(before.rows(), item_id)
            } else {
                &&& r matches Err(m) && m@ == StoreError::NoRows.spec_message()
                &&& after.rows() == before.rows()
            }
        },
        Request::DeleteItem { item_id, .. } => {
            &&& r == Ok::<ResponseData, String>(ResponseData::Deleted { item_id })
            &&& after.rows() == before.rows().filter(|x: ClipRow| x.id != item_id)
            &&& after.settings() == before.settings()
        },
        Request::ClearHistory { .. } => {
            &&& r == Ok::<ResponseData, String>(ResponseData::Cleared {
                removed: (before.rows().len() - trimmed(before.rows(), 0).len()) as usize,
            })
            &&& after.rows() == trimmed(before.rows(), 0)
            &&& after.settings() == before.settings()
        },
        Request::GetSetting { key, .. } => {
            &&& after.rows() == before.rows()
            &&& after.settings() == before.settings()
            &&& r matches Ok(ResponseData::Setting { key: k, value }) && k == key
                && value@ == setting_or(before.settings(), key@, Seq::empty())
        },
        Request::SetSetting { key, value, .. } => {
            &&& r == Ok::<ResponseData, String>(ResponseData::SettingSet { key })
            &&& after.rows() == before.rows()
            &&& after.settings() == before.settings().insert(key@, value@)
        },
        Request::Status { .. } => {
            &&& after.rows() == before.rows()
            &&& after.settings() == before.settings()
            &&& r matches Ok(ResponseData::Status { version, item_count, uptime_secs: u })
                && version@ == VERSION@ && item_count == before.rows().len() && u == uptime
        },
    }
}

/// Carries out a request on the store: reads answer from the store as it is,
/// changes change it as `answered` says, and a failed toggle answers the
/// store's error message.
pub fn execute_request(req: Request, db: &mut Database, ranked: &Vec<i64>, uptime_secs: u64) -> (r: Result<ResponseData, String>)
    requires
        old(db).wf(),
    ensures
        final(db).wf(),
        answered(req, *old(db), *final(db), ranked@, uptime_secs, r),
{
    match req {
        Request::GetItems { search, limit, offset, .. } => {
            let lim = match limit {
                Some(l) => if l < 200 { l } else { 200 },
                None => 50,
            };
            let off = match offset {
                Some(o) => o,
                None => 0,
            };
            let q: Option<&str> = match &search {
                Some(s) => Some(s.as_str()),
                None => None,
            };
            assert(crate::db::opt_ref_view(q) == opt_str_view(search));
            let items = db.get_items(q, ranked, lim, off);
            let total = db.count();
            assert(lim == page_limit(limit));
            assert(off == match offset { Some(o) => o, None => 0usize });
            Ok(ResponseData::Items { items, total })
        },
        Request::GetItem { item_id, .. } => {
            let item = db.get_item(item_id);
            Ok(ResponseData::Item { item })
        },
        Request::ToggleFavorite { item_id, .. } => {
            match db.toggle_favorite(item_id) {
                Ok(is_favorite) => Ok(ResponseData::Favorite { item_id, is_favorite }),
                Err(e) => Err(e.message()),
            }
        },
        Request::TogglePinned { item_id, .. } => {
            match db.toggle_pinned(item_id) {
                Ok(is_pinned) => Ok(ResponseData::Pinned { item_id, is_pinned }),
                Err(e) => Err(e.message()),
            }
        },
        Request::DeleteItem { item_id, .. } => {
            db.delete_item(item_id);
            Ok(ResponseData::Deleted { item_id })
        },
        Request::ClearHistory { .. } => {
            let before = db.count();
            db.enforce_limit(0);
            let after = db.count();
            proof {
                old(db).rows().lemma_filter_len(crate::db::retained_in(old(db).rows(), 0));
            }
            Ok(ResponseData::Cleared { removed: (before - after) as usize })
        },
        Request::GetSetting { key, .. } => {
            let value = db.get_setting(key.as_str(), "");
            proof {
                reveal_strlit("");
                assert(""@ =~= Seq::<char>::empty());
            }
            Ok(ResponseData::Setting { key, value })
        },
        Request::SetSetting { key, value, .. } => {
            db.set_setting(key.as_str(), value.as_str());
            Ok(ResponseData::SettingSet { key })
        },
        Request::Status { .. } => {
            let item_count = db.count();
            Ok(ResponseData::Status { version: VERSION, item_count, uptime_secs })
        },
    }
}

/// The message `r` sends for the answer `res` to the request with id `id`.
pub open spec fn responds_with(r: Response, id: u64, res: Result<ResponseData, String>) -> bool {
    match res {
        Ok(data) => r == Response::Result { id, data },
        Err(message) => r == Response::Error { id, message },
    }
}

/// Answers one line from a client: `parsed` is the request read from it, or the
/// parser's message when the line is not a request (answered under id 0).
pub fn respond(parsed: Result<Request, String>, db: &mut Database, ranked: &Vec<i64>, uptime_secs: u64) -> (r: Response)
    requires
        old(db).wf(),
    ensures
        final(db).wf(),
        match parsed {
            Err(e) => {
                &&& r matches Response::Error { id, message } && id == 0 && message@ == "parse error: "@ + e@
                &&& *final(db) == *old(db)
            },
            Ok(req) => (exists|res: Result<ResponseData, String>|
                answered(req, *old(db), *final(db), ranked@, uptime_secs, res) && responds_with(r, req.spec_id(), res)),
        },
{
    match parsed {
        Err(e) => {
            let message = string_from("parse error: ").concat(e.as_str());
            Response::Error { id: 0, message }
        },
        Ok(req) => {
            let id = req.request_id();
            let ghost req0 = req;
            let res = execute_request(req, db, ranked, uptime_secs);
            let ghost res0 = res;
            let r = match res {
                Ok(data) => Response::Result { id, data },
                Err(message) => Response::Error { id, message },
            };
            assert(responds_with(r, req0.spec_id(), res0));
            r
        },
    }
}

} // verus!
