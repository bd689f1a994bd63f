//! The clipboard history store: one row per distinct clipboard payload
//! (deduplicated by content hash), favorites and pinned rows protected from
//! trimming, and a small key/value table of settings.
use vstd::prelude::*;

use crate::text::{blank, chars_of, is_blank, str_eq, string_from, string_of};

verus! {

// ─── Rows ─────────────────────────────────────────────────────────────────────

/// One stored clipboard entry.
#[derive(Debug, Clone)]
pub struct ClipItem {
    pub id: i64,
    pub hash: String,
    pub content: Option<String>,
    pub blob_path: Option<String>,
    pub mime_type: String,
    pub byte_size: i64,
    pub is_favorite: bool,
    pub is_pinned: bool,
    pub created_at: i64,
    pub last_used: i64,
    pub use_count: i64,
}

/// The mathematical value of a [`ClipItem`]: its strings taken as character sequences.
pub struct ClipRow {
    pub id: i64,
    pub hash: Seq<char>,
    pub content: Option<Seq<char>>,
    pub blob_path: Option<Seq<char>>,
    pub mime_type: Seq<char>,
    pub byte_size: i64,
    pub is_favorite: bool,
    pub is_pinned: bool,
    pub created_at: i64,
    pub last_used: i64,
    pub use_count: i64,
}

pub open spec fn opt_str_view(o: Option<String>) -> Option<Seq<char>> {
    match o {
        Some(s) => Some(s@),
        None => None,
    }
}

pub open spec fn opt_ref_view(o: Option<&str>) -> Option<Seq<char>> {
    match o {
        Some(s) => Some(s@),
        None => None,
    }
}

impl View for ClipItem {
    type V = ClipRow;

    open spec fn view(&self) -> ClipRow {
        ClipRow {
            id: self.id,
            hash: self.hash@,
            content: opt_str_view(self.content),
            blob_path: opt_str_view(self.blob_path),
            mime_type: self.mime_type@,
            byte_size: self.byte_size,
            is_favorite: self.is_favorite,
            is_pinned: self.is_pinned,
            created_at: self.created_at,
            last_used: self.last_used,
            use_count: self.use_count,
        }
    }
}

/// A copy of an optional string.
pub fn copy_opt(o: &Option<String>) -> (r: Option<String>)
    ensures
        r == *o,
{
    match o {
        Some(s) => Some(s.clone()),
        None => None,
    }
}

/// An owned copy of an optional string slice.
pub fn own_opt(o: Option<&str>) -> (r: Option<String>)
    ensures
        opt_str_view(r) == opt_ref_view(o),
{
    match o {
        Some(s) => Some(string_from(s)),
        None => None,
    }
}

impl ClipItem {
    /// A field-by-field copy of this item.
    pub fn duplicate(&self) -> (r: ClipItem)
        ensures
            r == *self,
            r@ == self@,
    {
        ClipItem {
            id: self.id,
            hash: self.hash.clone(),
            content: copy_opt(&self.content),
            blob_path: copy_opt(&self.blob_path),
            mime_type: self.mime_type.clone(),
            byte_size: self.byte_size,
            is_favorite: self.is_favorite,
            is_pinned: self.is_pinned,
            created_at: self.created_at,
            last_used: self.last_used,
            use_count: self.use_count,
        }
    }
}

/// A clipboard payload about to be recorded.
#[derive(Debug)]
pub struct NewItem<'a> {
    pub hash: &'a str,
    pub content: Option<&'a str>,
    pub blob_path: Option<&'a str>,
    pub mime_type: &'a str,
    pub byte_size: usize,
}

/// The mathematical value of a [`NewItem`].
pub struct NewRow {
    pub hash: Seq<char>,
    pub content: Option<Seq<char>>,
    pub blob_path: Option<Seq<char>>,
    pub mime_type: Seq<char>,
    pub byte_size: usize,
}

impl<'a> View for NewItem<'a> {
    type V = NewRow;

    open spec fn view(&self) -> NewRow {
        NewRow {
            hash: self.hash@,
            content: opt_ref_view(self.content),
            blob_path: opt_ref_view(self.blob_path),
            mime_type: self.mime_type@,
            byte_size: self.byte_size,
        }
    }
}

/// Why a store operation failed.
#[derive(Debug, Clone, Copy, PartialEq, Eq)]
pub enum StoreError {
    /// The addressed row does not exist.
    NoRows,
    /// A counter would leave the range of a 64-bit signed integer.
    IntegerOverflow,
    /// Every row id has been used.
    IdsExhausted,
}

impl StoreError {
    /// The human-readable text of this error.
    pub fn message(&self) -> (r: String)
        ensures
            r@ == self.spec_message(),
    {
        match self {
            StoreError::NoRows => string_from("Query returned no rows"),
            StoreError::IntegerOverflow => string_from("integer overflow"),
            StoreError::IdsExhausted => string_from("database or disk is full"),
        }
    }

    pub open spec fn spec_message(&self) -> Seq<char> {
        match self {
            StoreError::NoRows => "Query returned no rows"@,
            StoreError::IntegerOverflow => "integer overflow"@,
            StoreError::IdsExhausted => "database or disk is full"@,
        }
    }
}

// ─── Listing order ────────────────────────────────────────────────────────────

/// `a` was used more recently than `b` (the newer id wins a tie).
pub open spec fn newer(a: ClipRow, b: ClipRow) -> bool {
    a.last_used > b.last_used || (a.last_used == b.last_used && a.id > b.id)
}

/// `a` comes before `b` in a listing: pinned rows first, then the most recently used.
pub open spec fn listed_before(a: ClipRow, b: ClipRow) -> bool {
    (a.is_pinned && !b.is_pinned) || (a.is_pinned == b.is_pinned && newer(a, b))
}

/// Every row comes before every later one.
pub open spec fn in_list_order(s: Seq<ClipRow>) -> bool {
    forall|i: int, j: int| #![trigger s[i], s[j]] 0 <= i < j < s.len() ==> listed_before(s[i], s[j])
}

pub open spec fn unique_ids(s: Seq<ClipRow>) -> bool {
    forall|i: int, j: int| #![trigger s[i], s[j]] 0 <= i < s.len() && 0 <= j < s.len() && i != j ==> s[i].id != s[j].id
}

pub open spec fn unique_hashes(s: Seq<ClipRow>) -> bool {
    forall|i: int, j: int| #![trigger s[i], s[j]] 0 <= i < s.len() && 0 <= j < s.len() && i != j ==> s[i].hash != s[j].hash
}

pub open spec fn has_id(s: Seq<ClipRow>, id: i64) -> bool {
    exists|k: int| 0 <= k < s.len() && s[k].id == id
}

/// The position of the row with the given id.
pub open spec fn id_pos(s: Seq<ClipRow>, id: i64) -> int {
    choose|k: int| 0 <= k < s.len() && s[k].id == id
}

pub open spec fn has_hash(s: Seq<ClipRow>, h: Seq<char>) -> bool {
    exists|k: int| 0 <= k < s.len() && s[k].hash == h
}

/// The position of the row with the given hash.
pub open spec fn hash_pos(s: Seq<ClipRow>, h: Seq<char>) -> int {
    choose|k: int| 0 <= k < s.len() && s[k].hash == h
}

/// `x` inserted into the ordered listing `s` at its place.
pub open spec fn insert_in_order(s: Seq<ClipRow>, x: ClipRow) -> Seq<ClipRow>
    decreases s.len(),
{
    if s.len() == 0 {
        seq![x]
    } else if listed_before(s[0], x) {
        seq![s[0]] + insert_in_order(s.drop_first(), x)
    } else {
        seq![x] + s
    }
}

/// Whether `a` comes before `b` in a listing.
pub fn lists_before(a: &ClipItem, b: &ClipItem) -> (r: bool)
    ensures
        r == listed_before(a@, b@),
{
    if a.is_pinned != b.is_pinned {
        a.is_pinned
    } else {
        a.last_used > b.last_used || (a.last_used == b.last_used && a.id > b.id)
    }
}

proof fn lemma_listed_before_total(a: ClipRow, b: ClipRow)
    requires
        a.id != b.id,
    ensures
        listed_before(a, b) || listed_before(b, a),
{
}

proof fn lemma_listed_before_trans(a: ClipRow, b: ClipRow, c: ClipRow)
    requires
        listed_before(a, b),
        listed_before(b, c),
    ensures
        listed_before(a, c),
{
}

/// Placing `x` after exactly the rows that come before it is the ordered insertion.
proof fn lemma_insert_at(s: Seq<ClipRow>, x: ClipRow, p: int)
    requires
        0 <= p <= s.len(),
        forall|k: int| 0 <= k < p ==> listed_before(#[trigger] s[k], x),
        p < s.len() ==> !listed_before(s[p], x),
    ensures
        insert_in_order(s, x) == s.insert(p, x),
    decreases p,
{
    if p == 0 {
        if s.len() == 0 {
            assert(s.insert(p, x) =~= seq![x]);
        } else {
            assert(s.insert(p, x) =~= seq![x] + s);
        }
    } else {
        let t = s.drop_first();
        assert forall|k: int| 0 <= k < p - 1 implies listed_before(#[trigger] t[k], x) by {
            assert(t[k] == s[k + 1]);
        }
        lemma_insert_at(t, x, p - 1);
        assert(listed_before(s[0], x));
        assert(s.insert(p, x) =~= seq![s[0]] + t.insert(p - 1, x));
    }
}

/// Ordered insertion of a row with a fresh id keeps a listing ordered.
proof fn lemma_insert_keeps_order(s: Seq<ClipRow>, x: ClipRow, p: int)
    requires
        in_list_order(s),
        0 <= p <= s.len(),
        forall|k: int| 0 <= k < p ==> listed_before(#[trigger] s[k], x),
        p < s.len() ==> !listed_before(s[p], x),
        forall|k: int| 0 <= k < s.len() ==> (#[trigger] s[k]).id != x.id,
    ensures
        in_list_order(s.insert(p, x)),
        forall|k: int| p <= k < s.len() ==> listed_before(x, #[trigger] s[k]),
{
    assert forall|k: int| p <= k < s.len() implies listed_before(x, #[trigger] s[k]) by {
        lemma_listed_before_total(s[p], x);
        if k > p {
            assert(listed_before(s[p], s[k]));
            lemma_listed_before_trans(x, s[p], s[k]);
        }
    }
    let r = s.insert(p, x);
    assert forall|i: int, j: int| 0 <= i < j < r.len() implies listed_before(#[trigger] r[i], #[trigger] r[j]) by {
        if j < p {
            assert(r[i] == s[i] && r[j] == s[j]);
        } else if j == p {
            assert(r[j] == x && r[i] == s[i]);
        } else if i < p {
            assert(r[i] == s[i] && r[j] == s[j - 1]);
            assert(listed_before(s[i], x));
            lemma_listed_before_trans(s[i], x, s[j - 1]);
        } else if i == p {
            assert(r[i] == x && r[j] == s[j - 1]);
        } else {
            assert(r[i] == s[i - 1] && r[j] == s[j - 1]);
        }
    }
}

/// Inserts `x` into the ordered vector `v` at its place.
fn insert_ordered(v: &mut Vec<ClipItem>, x: ClipItem)
    requires
        in_list_order(old(v)@.map_values(|r: ClipItem| r@)),
        forall|k: int| 0 <= k < old(v).len() ==> (#[trigger] old(v)@[k]).id != x.id,
    ensures
        final(v)@.map_values(|r: ClipItem| r@) == insert_in_order(old(v)@.map_values(|r: ClipItem| r@), x@),
        in_list_order(final(v)@.map_values(|r: ClipItem| r@)),
{
    let ghost s = v@.map_values(|r: ClipItem| r@);
    let mut p: usize = 0;
    while p < v.len() && lists_before(&v[p], &x)
        invariant
            p <= v.len(),
            s == v@.map_values(|r: ClipItem| r@),
            forall|k: int| 0 <= k < p ==> listed_before(#[trigger] s[k], x@),
        decreases v.len() - p,
    {
        p += 1;
    }
    proof {
        assert forall|k: int| 0 <= k < s.len() implies (#[trigger] s[k]).id != x@.id by {
            assert(s[k] == v@[k]@);
        }
        lemma_insert_at(s, x@, p as int);
        lemma_insert_keeps_order(s, x@, p as int);
    }
    let ghost xv = x@;
    v.insert(p, x);
    assert(v@.map_values(|r: ClipItem| r@) =~= s.insert(p as int, xv));
}

/// Two rows that may stand in this order in a store: `a` listed first, with
/// another id and another hash.
pub open spec fn pair_ok(a: ClipRow, b: ClipRow) -> bool {
    listed_before(a, b) && a.id != b.id && a.hash != b.hash
}

/// Every two rows stand in an order a store allows.
pub open spec fn all_pairs_ok(s: Seq<ClipRow>) -> bool {
    forall|a: int, b: int| #![trigger s[a], s[b]] 0 <= a < b < s.len() ==> pair_ok(s[a], s[b])
}

proof fn lemma_pairs_ok(s: Seq<ClipRow>)
    ensures
        all_pairs_ok(s) <==> (in_list_order(s) && unique_ids(s) && unique_hashes(s)),
{
    if all_pairs_ok(s) {
        assert forall|i: int, j: int| 0 <= i < s.len() && 0 <= j < s.len() && i != j
            implies #[trigger] s[i].id != #[trigger] s[j].id by {
            if i < j { assert(pair_ok(s[i], s[j])); } else { assert(pair_ok(s[j], s[i])); }
        }
        assert forall|i: int, j: int| 0 <= i < s.len() && 0 <= j < s.len() && i != j
            implies #[trigger] s[i].hash != #[trigger] s[j].hash by {
            if i < j { assert(pair_ok(s[i], s[j])); } else { assert(pair_ok(s[j], s[i])); }
        }
    }
}

/// Whether every two rows of `v` stand in an order a store allows.
fn all_pairs_in_order(v: &Vec<ClipItem>) -> (r: bool)
    ensures
        r == all_pairs_ok(rows_of(v@)),
{
    let ghost s = rows_of(v@);
    let mut i: usize = 0;
    while i < v.len()
        invariant
            i <= v.len(),
            s == rows_of(v@),
            forall|a: int, b: int| #![trigger s[a], s[b]] 0 <= a < i && a < b < s.len() ==> pair_ok(s[a], s[b]),
        decreases v.len() - i,
    {
        let mut j: usize = i + 1;
        while j < v.len()
            invariant
                i < v.len(),
                i + 1 <= j <= v.len(),
                s == rows_of(v@),
                forall|a: int, b: int| #![trigger s[a], s[b]] 0 <= a < i && a < b < s.len() ==> pair_ok(s[a], s[b]),
                forall|b: int| i < b < j ==> pair_ok(s[i as int], #[trigger] s[b]),
            decreases v.len() - j,
        {
            assert(s[i as int] == v@[i as int]@ && s[j as int] == v@[j as int]@);
            if !lists_before(&v[i], &v[j]) || v[i].id == v[j].id
                || str_eq(v[i].hash.as_str(), v[j].hash.as_str()) {
                assert(!pair_ok(s[i as int], s[j as int]));
                return false;
            }
            j += 1;
        }
        assert forall|a: int, b: int| 0 <= a < i + 1 && a < b < s.len() implies #[trigger] pair_ok(s[a], s[b]) by {
            if a == i {
                assert(pair_ok(s[i as int], s[b]));
            }
        }
        i += 1;
    }
    true
}

// ─── The store ────────────────────────────────────────────────────────────────

/// The clipboard history and the settings table.
pub struct Database {
    rows: Vec<ClipItem>,
    settings: Vec<(String, String)>,
    last_id: i64,
}

/// The row a recorded payload becomes.
pub open spec fn fresh_row(id: i64, item: NewRow, now: i64) -> ClipRow {
    ClipRow {
        id,
        hash: item.hash,
        content: item.content,
        blob_path: item.blob_path,
        mime_type: item.mime_type,
        byte_size: item.byte_size as i64,
        is_favorite: false,
        is_pinned: false,
        created_at: now,
        last_used: now,
        use_count: 1,
    }
}

/// A row used again at `now`.
pub open spec fn touched(r: ClipRow, now: i64) -> ClipRow {
    ClipRow { last_used: now, use_count: (r.use_count + 1) as i64, ..r }
}

/// What recording `item` at `now` does to a listing `s` whose last id is `last`:
/// the result, the new listing and the new last id. A stored hash refreshes its
/// row (unless its use count is at the maximum); a new one gets the next id.
pub open spec fn upsert_outcome(s: Seq<ClipRow>, last: i64, item: NewRow, now: i64) -> (Result<(i64, bool), StoreError>, Seq<ClipRow>, i64) {
    if has_hash(s, item.hash) {
        let row = s[hash_pos(s, item.hash)];
        if row.use_count == i64::MAX {
            (Err(StoreError::IntegerOverflow), s, last)
        } else {
            (Ok((row.id, false)), touched_rows(s, item.hash, now), last)
        }
    } else if last == i64::MAX {
        (Err(StoreError::IdsExhausted), s, last)
    } else {
        (Ok(((last + 1) as i64, true)), insert_in_order(s, fresh_row((last + 1) as i64, item, now)), (last + 1) as i64)
    }
}

/// The listing after the row with hash `h` is used again at `now`.
pub open spec fn touched_rows(s: Seq<ClipRow>, h: Seq<char>, now: i64) -> Seq<ClipRow> {
    let k = hash_pos(s, h);
    insert_in_order(s.remove(k), touched(s[k], now))
}

/// The listing after the favorite mark of the row with id `id` is flipped.
pub open spec fn favorite_toggled(s: Seq<ClipRow>, id: i64) -> Seq<ClipRow> {
    let k = id_pos(s, id);
    s.update(k, favorite_flipped(s[k]))
}

/// The listing after the pinned mark of the row with id `id` is flipped.
pub open spec fn pin_toggled(s: Seq<ClipRow>, id: i64) -> Seq<ClipRow> {
    let k = id_pos(s, id);
    insert_in_order(s.remove(k), pin_flipped(s[k]))
}

pub open spec fn favorite_flipped(r: ClipRow) -> ClipRow {
    ClipRow { is_favorite: !r.is_favorite, ..r }
}

pub open spec fn pin_flipped(r: ClipRow) -> ClipRow {
    ClipRow { is_pinned: !r.is_pinned, ..r }
}

impl Database {
    /// The rows in listing order.
    pub closed spec fn rows(&self) -> Seq<ClipRow> {
        self.rows@.map_values(|r: ClipItem| r@)
    }

    /// The largest row id ever handed out (0 before the first).
    pub closed spec fn last_id(&self) -> i64 {
        self.last_id
    }

    /// The settings table as a map from key to value.
    pub closed spec fn settings(&self) -> Map<Seq<char>, Seq<char>> {
        Map::new(
            |k: Seq<char>| exists|i: int| 0 <= i < self.settings@.len() && #[trigger] self.settings@[i].0@ == k,
            |k: Seq<char>| self.settings@[choose|i: int| 0 <= i < self.settings@.len() && #[trigger] self.settings@[i].0@ == k].1@,
        )
    }

    closed spec fn settings_keys_unique(&self) -> bool {
        forall|i: int, j: int|
            #![trigger self.settings@[i], self.settings@[j]]
            0 <= i < self.settings@.len() && 0 <= j < self.settings@.len() && i != j
                ==> self.settings@[i].0@ != self.settings@[j].0@
    }

    /// The store's invariant: rows listed in order, one row per id and per hash,
    /// every id between 1 and the last one handed out, one value per setting.
    pub closed spec fn wf(&self) -> bool {
        &&& in_list_order(self.rows())
        &&& unique_ids(self.rows())
        &&& unique_hashes(self.rows())
        &&& self.last_id >= 0
        &&& forall|k: int| 0 <= k < self.rows().len() ==> 1 <= (#[trigger] self.rows()[k]).id <= self.last_id
        &&& self.settings_keys_unique()
    }

    /// The rows of a well-formed store form a store listing whose ids lie
    /// between 1 and the last id handed out.
    pub proof fn lemma_wf_listing(&self)
        requires
            self.wf(),
        ensures
            store_listing(self.rows()),
            ids_within(self.rows(), self.last_id()),
            self.last_id() >= 0,
    {
    }

    /// An empty store.
    pub fn new() -> (r: Database)
        ensures
            r.wf(),
            r.rows() == Seq::<ClipRow>::empty(),
            r.last_id() == 0,
            r.settings() == Map::<Seq<char>, Seq<char>>::empty(),
    {
        let r = Database { rows: Vec::new(), settings: Vec::new(), last_id: 0 };
        assert(r.rows() =~= Seq::<ClipRow>::empty());
        assert(r.settings() =~= Map::<Seq<char>, Seq<char>>::empty());
        r
    }

    /// A store holding `rows` as its listing, `last_id` as the last id handed
    /// out and no settings; `None` when they cannot form a store (rows out of
    /// listing order, an id or hash twice, an id outside 1 to `last_id`).
    pub fn restore(rows: Vec<ClipItem>, last_id: i64) -> (r: Option<Database>)
        ensures
            r is Some <==> (store_listing(rows_of(rows@)) && last_id >= 0 && ids_within(rows_of(rows@), last_id)),
            r matches Some(db) ==> db.wf() && db.rows() == rows_of(rows@) && db.last_id() == last_id
                && db.settings() == Map::<Seq<char>, Seq<char>>::empty(),
    {
        let ghost s = rows_of(rows@);
        if last_id < 0 {
            return None;
        }
        let mut i: usize = 0;
        while i < rows.len()
            invariant
                i <= rows.len(),
                s == rows_of(rows@),
                forall|k: int| 0 <= k < i ==> 1 <= (#[trigger] s[k]).id <= last_id,
            decreases rows.len() - i,
        {
            assert(s[i as int] == rows@[i as int]@);
            if rows[i].id < 1 || rows[i].id > last_id {
                return None;
            }
            i += 1;
        }
        if !all_pairs_in_order(&rows) {
            proof { lemma_pairs_ok(s); }
            return None;
        }
        proof { lemma_pairs_ok(s); }
        let r = Database { rows, settings: Vec::new(), last_id };
        assert(r.settings() =~= Map::<Seq<char>, Seq<char>>::empty());
        Some(r)
    }

    /// The number of stored rows.
    pub fn count(&self) -> (r: i64)
        requires
            self.wf(),
        ensures
            r == self.rows().len(),
    {
        proof { self.lemma_len_bound(); }
        self.rows.len() as i64
    }

    proof fn lemma_len_bound(&self)
        requires
            self.wf(),
        ensures
            self.rows().len() <= self.last_id,
            self.rows@.len() == self.rows().len(),
    {
        let s = self.rows();
        let ids = s.map_values(|r: ClipRow| r.id as int).to_set();
        let range = Set::new(|i: int| 1 <= i <= self.last_id);
        assert forall|i: int, j: int| 0 <= i < j < s.len() implies s[i].id != s[j].id by {
            assert(s[i] == s[i]);
            assert(s[j] == s[j]);
        }
        let idseq = s.map_values(|r: ClipRow| r.id as int);
        assert(idseq.no_duplicates()) by {
            assert forall|i: int, j: int| 0 <= i < idseq.len() && 0 <= j < idseq.len() && i != j implies idseq[i] != idseq[j] by {
                assert(s[i] == s[i] && s[j] == s[j]);
            }
        }
        idseq.unique_seq_to_set();
        assert(ids.subset_of(range)) by {
            assert forall|i: int| ids.contains(i) implies range.contains(i) by {
                let k = choose|k: int| 0 <= k < idseq.len() && idseq[k] == i;
                assert(s[k] == s[k]);
            }
        }
        vstd::set_lib::lemma_int_range(1, self.last_id + 1);
        assert(range =~= vstd::set_lib::set_int_range(1, self.last_id + 1));
        vstd::set_lib::lemma_len_subset(ids, range);
    }

    /// The row with the given id, if there is one.
    pub fn get_item(&self, id: i64) -> (r: Option<ClipItem>)
        requires
            self.wf(),
        ensures
            match r {
                Some(item) => has_id(self.rows(), id) && item@ == self.rows()[id_pos(self.rows(), id)],
                None => !has_id(self.rows(), id),
            },
    {
        let mut i: usize = 0;
        while i < self.rows.len()
            invariant
                i <= self.rows.len(),
                self.wf(),
                forall|k: int| 0 <= k < i ==> (#[trigger] self.rows()[k]).id != id,
            decreases self.rows.len() - i,
        {
            assert(self.rows()[i as int] == self.rows@[i as int]@);
            if self.rows[i].id == id {
                let item = self.rows[i].duplicate();
                proof {
                    let k = id_pos(self.rows(), id);
                    assert(self.rows()[k].id == id);
                    assert(k == i) by {
                        if k != i {
                            assert(self.rows()[k].id != self.rows()[i as int].id);
                        }
                    }
                }
                return Some(item);
            }
            i += 1;
        }
        None
    }

    /// Removes the row with the given id, if there is one.
    pub fn delete_item(&mut self, id: i64)
        requires
            old(self).wf(),
        ensures
            final(self).wf(),
            final(self).rows() == old(self).rows().filter(|r: ClipRow| r.id != id),
            final(self).last_id() == old(self).last_id(),
            final(self).settings() == old(self).settings(),
    {
        let ghost s0 = self.rows();
        let mut kept: Vec<ClipItem> = Vec::new();
        let mut i: usize = 0;
        while i < self.rows.len()
            invariant
                i <= self.rows.len(),
                s0 == self.rows(),
                kept@.map_values(|r: ClipItem| r@) == s0.take(i as int).filter(|r: ClipRow| r.id != id),
            decreases self.rows.len() - i,
        {
            proof {
                assert(s0.take(i as int + 1) == s0.take(i as int).push(s0[i as int]));
                s0.take(i as int).lemma_filter_push(s0[i as int], |r: ClipRow| r.id != id);
                assert(s0[i as int] == self.rows@[i as int]@);
            }
            if self.rows[i].id != id {
                let ghost before = kept@;
                kept.push(self.rows[i].duplicate());
                assert(kept@.map_values(|r: ClipItem| r@) =~= before.map_values(|r: ClipItem| r@).push(s0[i as int]));
            }
            i += 1;
        }
        assert(s0.take(s0.len() as int) == s0);
        proof { self.lemma_filter_keeps_wf(s0, |r: ClipRow| r.id != id, kept@.map_values(|r: ClipItem| r@)); }
        self.rows = kept;
    }

    /// Clears entries not used for `days` days (none when `days` is `None` or
    /// zero): every row that is neither favorite nor pinned and was last used
    /// more than `days` × 86 400 000 ms before `now` goes.
    pub fn clear_older_than(&mut self, now: i64, days: Option<u32>)
        requires
            old(self).wf(),
        ensures
            final(self).wf(),
            final(self).rows() == age_cut(old(self).rows(), now, days),
            final(self).last_id() == old(self).last_id(),
            final(self).settings() == old(self).settings(),
    {
        let n: u32 = match days {
            Some(n) => n,
            None => return,
        };
        if n == 0 {
            return;
        }
        let cutoff: i128 = now as i128 - (n as i128) * 86_400_000i128;
        let ghost s0 = self.rows();
        let ghost keep = kept_after(now, n);
        let mut kept: Vec<ClipItem> = Vec::new();
        let mut i: usize = 0;
        while i < self.rows.len()
            invariant
                i <= self.rows.len(),
                s0 == self.rows(),
                keep == kept_after(now, n),
                cutoff == now - n * 86_400_000,
                kept@.map_values(|r: ClipItem| r@) == s0.take(i as int).filter(keep),
            decreases self.rows.len() - i,
        {
            proof {
                assert(s0.take(i as int + 1) == s0.take(i as int).push(s0[i as int]));
                s0.take(i as int).lemma_filter_push(s0[i as int], keep);
                assert(s0[i as int] == self.rows@[i as int]@);
            }
            let row = &self.rows[i];
            if row.is_favorite || row.is_pinned || row.last_used as i128 >= cutoff {
                let ghost before = kept@;
                kept.push(row.duplicate());
                assert(kept@.map_values(|r: ClipItem| r@) =~= before.map_values(|r: ClipItem| r@).push(s0[i as int]));
            }
            i += 1;
        }
        assert(s0.take(s0.len() as int) == s0);
        proof { self.lemma_filter_keeps_wf(s0, keep, kept@.map_values(|r: ClipItem| r@)); }
        self.rows = kept;
    }

    /// Filtering the rows keeps them ordered, unique and within the id range.
    proof fn lemma_filter_keeps_wf(&self, s: Seq<ClipRow>, p: spec_fn(ClipRow) -> bool, f: Seq<ClipRow>)
        requires
            self.wf(),
            s == self.rows(),
            f == s.filter(p),
        ensures
            in_list_order(f),
            unique_ids(f),
            unique_hashes(f),
            forall|k: int| 0 <= k < f.len() ==> 1 <= (#[trigger] f[k]).id <= self.last_id,
    {
        lemma_filter_subsequence(s, p);
        let idx = choose|idx: Seq<int>| is_subsequence_map(s, s.filter(p), idx);
        assert forall|i: int, j: int| 0 <= i < j < f.len() implies listed_before(#[trigger] f[i], #[trigger] f[j]) by {
            assert(f[i] == s[idx[i]] && f[j] == s[idx[j]]);
        }
        assert forall|i: int, j: int| 0 <= i < f.len() && 0 <= j < f.len() && i != j implies #[trigger] f[i].id != #[trigger] f[j].id && f[i].hash != f[j].hash by {
            assert(f[i] == s[idx[i]] && f[j] == s[idx[j]]);
        }
        assert forall|k: int| 0 <= k < f.len() implies 1 <= (#[trigger] f[k]).id <= self.last_id by {
            assert(f[k] == s[idx[k]]);
        }
    }
}

/// `idx` maps each position of `f` to a position of `s` holding the same row,
/// strictly increasingly.
pub open spec fn is_subsequence_map(s: Seq<ClipRow>, f: Seq<ClipRow>, idx: Seq<int>) -> bool {
    &&& idx.len() == f.len()
    &&& forall|i: int| 0 <= i < f.len() ==> 0 <= #[trigger] idx[i] < s.len() && f[i] == s[idx[i]]
    &&& forall|i: int, j: int| 0 <= i < j < f.len() ==> #[trigger] idx[i] < #[trigger] idx[j]
}

/// A filtered sequence is a subsequence of the sequence it was filtered from.
proof fn lemma_filter_subsequence(s: Seq<ClipRow>, p: spec_fn(ClipRow) -> bool)
    ensures
        exists|idx: Seq<int>| is_subsequence_map(s, s.filter(p), idx),
    decreases s.len(),
{
    reveal(Seq::filter);
    if s.len() == 0 {
        assert(is_subsequence_map(s, s.filter(p), Seq::<int>::empty()));
    } else {
        let t = s.drop_last();
        lemma_filter_subsequence(t, p);
        let idx = choose|idx: Seq<int>| is_subsequence_map(t, t.filter(p), idx);
        if p(s.last()) {
            let idx2 = idx.push(s.len() - 1);
            assert(s.filter(p) == t.filter(p).push(s.last()));
            assert(is_subsequence_map(s, s.filter(p), idx2)) by {
                assert forall|i: int| 0 <= i < s.filter(p).len() implies 0 <= #[trigger] idx2[i] < s.len() && s.filter(p)[i] == s[idx2[i]] by {
                    if i < idx.len() {
                        assert(t[idx[i]] == s[idx[i]]);
                    }
                }
            }
        } else {
            assert(s.filter(p) == t.filter(p));
            assert(is_subsequence_map(s, s.filter(p), idx)) by {
                assert forall|i: int| 0 <= i < s.filter(p).len() implies 0 <= #[trigger] idx[i] < s.len() && s.filter(p)[i] == s[idx[i]] by {
                    assert(t[idx[i]] == s[idx[i]]);
                }
            }
        }
    }
}

/// Ordered insertion places the row at some position.
proof fn lemma_insert_in_order_position(s: Seq<ClipRow>, x: ClipRow) -> (p: int)
    ensures
        0 <= p <= s.len(),
        insert_in_order(s, x) == s.insert(p, x),
    decreases s.len(),
{
    if s.len() == 0 {
        assert(s.insert(0, x) =~= seq![x]);
        0
    } else if listed_before(s[0], x) {
        let q = lemma_insert_in_order_position(s.drop_first(), x);
        assert(s.insert(q + 1, x) =~= seq![s[0]] + s.drop_first().insert(q, x));
        q + 1
    } else {
        assert(s.insert(0, x) =~= seq![x] + s);
        0
    }
}

/// Ids between 1 and `last`.
pub open spec fn ids_within(s: Seq<ClipRow>, last: i64) -> bool {
    forall|k: int| 0 <= k < s.len() ==> 1 <= (#[trigger] s[k]).id <= last
}

/// A listing a store can hold: ordered, one row per id and per hash, positive ids.
pub open spec fn store_listing(s: Seq<ClipRow>) -> bool {
    &&& in_list_order(s)
    &&& unique_ids(s)
    &&& unique_hashes(s)
    &&& ids_within(s, i64::MAX)
}

/// Removing a row keeps a listing ordered and unique.
proof fn lemma_remove_keeps(s: Seq<ClipRow>, k: int, last: i64)
    requires
        0 <= k < s.len(),
        in_list_order(s),
        unique_ids(s),
        unique_hashes(s),
        ids_within(s, last),
    ensures
        in_list_order(s.remove(k)),
        unique_ids(s.remove(k)),
        unique_hashes(s.remove(k)),
        ids_within(s.remove(k), last),
        forall|j: int| 0 <= j < s.remove(k).len() ==> (#[trigger] s.remove(k)[j]).id != s[k].id && s.remove(k)[j].hash != s[k].hash,
{
    let r = s.remove(k);
    assert forall|j: int| 0 <= j < r.len() implies r[j] == s[if j < k { j } else { j + 1 }] by {}
    assert forall|i: int, j: int| 0 <= i < j < r.len() implies listed_before(#[trigger] r[i], #[trigger] r[j]) by {
        let a = if i < k { i } else { i + 1 };
        let b = if j < k { j } else { j + 1 };
        assert(r[i] == s[a] && r[j] == s[b]);
    }
    assert forall|i: int, j: int| 0 <= i < r.len() && 0 <= j < r.len() && i != j implies #[trigger] r[i].id != #[trigger] r[j].id && r[i].hash != r[j].hash by {
        let a = if i < k { i } else { i + 1 };
        let b = if j < k { j } else { j + 1 };
        assert(r[i] == s[a] && r[j] == s[b]);
    }
    assert forall|j: int| 0 <= j < r.len() implies (#[trigger] r[j]).id != s[k].id && r[j].hash != s[k].hash by {
        let a = if j < k { j } else { j + 1 };
        assert(r[j] == s[a]);
    }
    assert forall|j: int| 0 <= j < r.len() implies 1 <= (#[trigger] r[j]).id <= last by {
        let a = if j < k { j } else { j + 1 };
        assert(r[j] == s[a]);
    }
}

/// Inserting a row with a new id and a new hash keeps a listing unique.
proof fn lemma_insert_keeps_unique(s: Seq<ClipRow>, x: ClipRow, last: i64)
    requires
        unique_ids(s),
        unique_hashes(s),
        ids_within(s, last),
        1 <= x.id <= last,
        forall|j: int| 0 <= j < s.len() ==> (#[trigger] s[j]).id != x.id && s[j].hash != x.hash,
    ensures
        unique_ids(insert_in_order(s, x)),
        unique_hashes(insert_in_order(s, x)),
        ids_within(insert_in_order(s, x), last),
{
    let p = lemma_insert_in_order_position(s, x);
    let r = s.insert(p, x);
    assert forall|j: int| 0 <= j < r.len() implies r[j] == (if j < p { s[j] } else if j == p { x } else { s[j - 1] }) by {}
    assert forall|i: int, j: int| 0 <= i < r.len() && 0 <= j < r.len() && i != j implies #[trigger] r[i].id != #[trigger] r[j].id && r[i].hash != r[j].hash by {
        if i != p && j != p {
            let a = if i < p { i } else { i - 1 };
            let b = if j < p { j } else { j - 1 };
            assert(r[i] == s[a] && r[j] == s[b]);
        } else if i == p {
            let b = if j < p { j } else { j - 1 };
            assert(r[j] == s[b]);
        } else {
            let a = if i < p { i } else { i - 1 };
            assert(r[i] == s[a]);
        }
    }
    assert forall|j: int| 0 <= j < r.len() implies 1 <= (#[trigger] r[j]).id <= last by {
        if j < p {
            assert(r[j] == s[j]);
        } else if j > p {
            assert(r[j] == s[j - 1]);
        }
    }
}

impl Database {
    /// The position of the row with the given id, if there is one.
    fn find_id(&self, id: i64) -> (r: Option<usize>)
        requires
            self.wf(),
        ensures
            match r {
                Some(k) => k < self.rows().len() && has_id(self.rows(), id) && k == id_pos(self.rows(), id) && self.rows()[k as int].id == id,
                None => !has_id(self.rows(), id),
            },
    {
        let mut i: usize = 0;
        while i < self.rows.len()
            invariant
                i <= self.rows.len(),
                self.wf(),
                forall|k: int| 0 <= k < i ==> (#[trigger] self.rows()[k]).id != id,
            decreases self.rows.len() - i,
        {
            assert(self.rows()[i as int] == self.rows@[i as int]@);
            if self.rows[i].id == id {
                proof {
                    let k = id_pos(self.rows(), id);
                    assert(self.rows()[k].id == id);
                    if k != i {
                        assert(self.rows()[k].id != self.rows()[i as int].id);
                    }
                }
                return Some(i);
            }
            i += 1;
        }
        None
    }

    /// The position of the row with the given hash, if there is one.
    fn find_hash(&self, h: &str) -> (r: Option<usize>)
        requires
            self.wf(),
        ensures
            match r {
                Some(k) => k < self.rows().len() && has_hash(self.rows(), h@) && k == hash_pos(self.rows(), h@) && self.rows()[k as int].hash == h@,
                None => !has_hash(self.rows(), h@),
            },
    {
        let mut i: usize = 0;
        while i < self.rows.len()
            invariant
                i <= self.rows.len(),
                self.wf(),
                forall|k: int| 0 <= k < i ==> (#[trigger] self.rows()[k]).hash != h@,
            decreases self.rows.len() - i,
        {
            assert(self.rows()[i as int] == self.rows@[i as int]@);
            if str_eq(self.rows[i].hash.as_str(), h) {
                proof {
                    let k = hash_pos(self.rows(), h@);
                    assert(self.rows()[k].hash == h@);
                    if k != i {
                        assert(self.rows()[k].hash != self.rows()[i as int].hash);
                    }
                }
                return Some(i);
            }
            i += 1;
        }
        None
    }

    /// Flips the favorite mark of the row with the given id and returns its new value.
    pub fn toggle_favorite(&mut self, id: i64) -> (r: Result<bool, StoreError>)
        requires
            old(self).wf(),
        ensures
            final(self).wf(),
            final(self).last_id() == old(self).last_id(),
            final(self).settings() == old(self).settings(),
            has_id(old(self).rows(), id) ==> {
                let k = id_pos(old(self).rows(), id);
                &&& r == Ok::<bool, StoreError>(!old(self).rows()[k].is_favorite)
                &&& final(self).rows() == favorite_toggled(old(self).rows(), id)
            },
            !has_id(old(self).rows(), id) ==> r == Err::<bool, StoreError>(StoreError::NoRows) && final(self).rows() == old(self).rows(),
    {
        match self.find_id(id) {
            None => Err(StoreError::NoRows),
            Some(k) => {
                let ghost s0 = self.rows();
                let mut item = self.rows[k].duplicate();
                item.is_favorite = !item.is_favorite;
                let flag = item.is_favorite;
                self.rows.set(k, item);
                proof {
                    let s1 = self.rows();
                    assert(s1 =~= s0.update(k as int, favorite_flipped(s0[k as int])));
                    assert forall|i: int, j: int| 0 <= i < j < s1.len() implies listed_before(#[trigger] s1[i], #[trigger] s1[j]) by {
                        assert(listed_before(s0[i], s0[j]));
                    }
                    assert forall|i: int, j: int| 0 <= i < s1.len() && 0 <= j < s1.len() && i != j implies #[trigger] s1[i].id != #[trigger] s1[j].id && s1[i].hash != s1[j].hash by {
                        assert(s0[i].id != s0[j].id && s0[i].hash != s0[j].hash);
                    }
                    assert forall|j: int| 0 <= j < s1.len() implies 1 <= (#[trigger] s1[j]).id <= self.last_id by {
                        assert(s0[j] == s0[j]);
                    }
                }
                Ok(flag)
            }
        }
    }

    /// Flips the pinned mark of the row with the given id, moves the row to its
    /// place in the listing, and returns the new value.
    pub fn toggle_pinned(&mut self, id: i64) -> (r: Result<bool, StoreError>)
        requires
            old(self).wf(),
        ensures
            final(self).wf(),
            final(self).last_id() == old(self).last_id(),
            final(self).settings() == old(self).settings(),
            has_id(old(self).rows(), id) ==> {
                let k = id_pos(old(self).rows(), id);
                &&& r == Ok::<bool, StoreError>(!old(self).rows()[k].is_pinned)
                &&& final(self).rows() == pin_toggled(old(self).rows(), id)
            },
            !has_id(old(self).rows(), id) ==> r == Err::<bool, StoreError>(StoreError::NoRows) && final(self).rows() == old(self).rows(),
    {
        match self.find_id(id) {
            None => Err(StoreError::NoRows),
            Some(k) => {
                let ghost s0 = self.rows();
                let mut item = self.rows.remove(k);
                assert(self.rows@.map_values(|r: ClipItem| r@) =~= s0.remove(k as int));
                proof { lemma_remove_keeps(s0, k as int, self.last_id); }
                item.is_pinned = !item.is_pinned;
                let flag = item.is_pinned;
                assert(item@ == pin_flipped(s0[k as int]));
                proof {
                    assert forall|j: int| 0 <= j < self.rows.len() implies (#[trigger] self.rows@[j]).id != item.id by {
                        assert(self.rows@[j]@ == s0.remove(k as int)[j]);
                    }
                }
                insert_ordered(&mut self.rows, item);
                proof { lemma_insert_keeps_unique(s0.remove(k as int), pin_flipped(s0[k as int]), self.last_id); }
                Ok(flag)
            }
        }
    }

    /// Records a clipboard payload used at time `now`. A payload whose hash is
    /// already stored only refreshes that row (last use, use count); a new one
    /// becomes a new row with the next id. Returns the row id and whether it is new.
    pub fn upsert_item(&mut self, item: NewItem, now: i64) -> (r: Result<(i64, bool), StoreError>)
        requires
            old(self).wf(),
            item.byte_size <= i64::MAX,
        ensures
            final(self).wf(),
            final(self).settings() == old(self).settings(),
            (r, final(self).rows(), final(self).last_id()) == upsert_outcome(old(self).rows(), old(self).last_id(), item@, now),
    {
        let ghost s0 = self.rows();
        match self.find_hash(item.hash) {
            Some(k) => {
                if self.rows[k].use_count == i64::MAX {
                    assert(s0[k as int] == self.rows@[k as int]@);
                    return Err(StoreError::IntegerOverflow);
                }
                let mut row = self.rows.remove(k);
                assert(self.rows@.map_values(|r: ClipItem| r@) =~= s0.remove(k as int));
                proof { lemma_remove_keeps(s0, k as int, self.last_id); }
                row.last_used = now;
                row.use_count = row.use_count + 1;
                let id = row.id;
                assert(row@ == touched(s0[k as int], now));
                proof {
                    assert forall|j: int| 0 <= j < self.rows.len() implies (#[trigger] self.rows@[j]).id != row.id by {
                        assert(self.rows@[j]@ == s0.remove(k as int)[j]);
                    }
                }
                insert_ordered(&mut self.rows, row);
                proof { lemma_insert_keeps_unique(s0.remove(k as int), touched(s0[k as int], now), self.last_id); }
                Ok((id, false))
            }
            None => {
                if self.last_id == i64::MAX {
                    return Err(StoreError::IdsExhausted);
                }
                let id = self.last_id + 1;
                let row = ClipItem {
                    id,
                    hash: string_from(item.hash),
                    content: own_opt(item.content),
                    blob_path: own_opt(item.blob_path),
                    mime_type: string_from(item.mime_type),
                    byte_size: item.byte_size as i64,
                    is_favorite: false,
                    is_pinned: false,
                    created_at: now,
                    last_used: now,
                    use_count: 1,
                };
                assert(row@ == fresh_row(id, item@, now));
                proof {
                    assert forall|j: int| 0 <= j < self.rows.len() implies (#[trigger] self.rows@[j]).id != id by {
                        assert(self.rows@[j]@ == s0[j]);
                    }
                    assert forall|j: int| 0 <= j < s0.len() implies (#[trigger] s0[j]).id != id && s0[j].hash != row@.hash by {}
                }
                self.last_id = id;
                insert_ordered(&mut self.rows, row);
                proof { lemma_insert_keeps_unique(s0, fresh_row(id, item@, now), self.last_id); }
                Ok((id, true))
            }
        }
    }
}

// ─── Trimming the history ─────────────────────────────────────────────────────

/// Favorites and pinned rows are never trimmed.
pub open spec fn protected(r: ClipRow) -> bool {
    r.is_favorite || r.is_pinned
}

/// Whether a row stays when entries not used for `days` days are cleared at
/// `now`: it is protected, or it was last used at most `days` × 86 400 000 ms
/// before `now`.
pub open spec fn kept_after(now: i64, days: u32) -> spec_fn(ClipRow) -> bool {
    |r: ClipRow| protected(r) || r.last_used >= now - days * 86_400_000
}

/// The rows left when entries not used for `days` days are cleared at `now`;
/// `None` or zero days clears nothing.
pub open spec fn age_cut(s: Seq<ClipRow>, now: i64, days: Option<u32>) -> Seq<ClipRow> {
    match days {
        Some(n) => if n > 0 {
            s.filter(kept_after(now, n))
        } else {
            s
        },
        None => s,
    }
}

/// How many unprotected rows of `s` were used more recently than `r`.
pub open spec fn newer_unprotected(s: Seq<ClipRow>, r: ClipRow) -> nat {
    s.filter(|y: ClipRow| !protected(y) && newer(y, r)).len()
}

/// Whether `r` survives trimming `s` to `max` unprotected rows: protected rows
/// always do, the others when fewer than `max` unprotected rows are newer.
pub open spec fn retained(s: Seq<ClipRow>, max: nat, r: ClipRow) -> bool {
    protected(r) || newer_unprotected(s, r) < max
}

/// The rows of `s` that survive trimming to `max` unprotected rows.
pub open spec fn trimmed(s: Seq<ClipRow>, max: nat) -> Seq<ClipRow> {
    s.filter(retained_in(s, max))
}

pub open spec fn retained_in(s: Seq<ClipRow>, max: nat) -> spec_fn(ClipRow) -> bool {
    |r: ClipRow| retained(s, max, r)
}

pub open spec fn unprotected() -> spec_fn(ClipRow) -> bool {
    |y: ClipRow| !protected(y)
}

/// Filters with predicates that agree on every element give the same result.
pub proof fn lemma_filter_agree(s: Seq<ClipRow>, p: spec_fn(ClipRow) -> bool, q: spec_fn(ClipRow) -> bool)
    requires
        forall|k: int| 0 <= k < s.len() ==> p(#[trigger] s[k]) == q(s[k]),
    ensures
        s.filter(p) == s.filter(q),
    decreases s.len(),
{
    reveal(Seq::filter);
    if s.len() > 0 {
        let t = s.drop_last();
        assert forall|k: int| 0 <= k < t.len() implies p(#[trigger] t[k]) == q(t[k]) by {
            assert(t[k] == s[k]);
        }
        lemma_filter_agree(t, p, q);
    }
}

/// In an ordered listing, the unprotected rows newer than the unprotected row at `i`
/// are exactly the unprotected rows before position `i`.
proof fn lemma_newer_unprotected_at(s: Seq<ClipRow>, i: int)
    requires
        in_list_order(s),
        0 <= i < s.len(),
        !protected(s[i]),
    ensures
        newer_unprotected(s, s[i]) == s.take(i).filter(unprotected()).len(),
{
    let r = s[i];
    let p = |y: ClipRow| !protected(y) && newer(y, r);
    let u = unprotected();
    assert(s == s.take(i) + s.skip(i));
    Seq::filter_distributes_over_add(s.take(i), s.skip(i), p);
    assert forall|k: int| 0 <= k < s.take(i).len() implies p(#[trigger] s.take(i)[k]) == u(s.take(i)[k]) by {
        assert(s.take(i)[k] == s[k]);
        assert(listed_before(s[k], s[i]));
    }
    lemma_filter_agree(s.take(i), p, u);
    assert(s.skip(i).all(|y: ClipRow| !p(y))) by {
        assert forall|k: int| 0 <= k < s.skip(i).len() implies !p(#[trigger] s.skip(i)[k]) by {
            assert(s.skip(i)[k] == s[i + k]);
            if k > 0 {
                assert(listed_before(s[i], s[i + k]));
            }
        }
    }
    s.skip(i).lemma_all_neg_filter_empty(p);
}

impl Database {
    /// Trims the history to `max_items` unprotected rows, dropping the least
    /// recently used; favorites and pinned rows always stay.
    pub fn enforce_limit(&mut self, max_items: usize)
        requires
            old(self).wf(),
        ensures
            final(self).wf(),
            final(self).rows() == trimmed(old(self).rows(), max_items as nat),
            final(self).last_id() == old(self).last_id(),
            final(self).settings() == old(self).settings(),
    {
        let ghost s0 = self.rows();
        let ghost keep = retained_in(s0, max_items as nat);
        let ghost unprot = unprotected();
        let mut kept: Vec<ClipItem> = Vec::new();
        let mut seen: usize = 0;
        let mut i: usize = 0;
        while i < self.rows.len()
            invariant
                i <= self.rows.len(),
                s0 == self.rows(),
                in_list_order(s0),
                keep == retained_in(s0, max_items as nat),
                unprot == unprotected(),
                seen <= i,
                seen == s0.take(i as int).filter(unprot).len(),
                kept@.map_values(|r: ClipItem| r@) == s0.take(i as int).filter(keep),
            decreases self.rows.len() - i,
        {
            proof {
                assert(s0.take(i as int + 1) == s0.take(i as int).push(s0[i as int]));
                s0.take(i as int).lemma_filter_push(s0[i as int], keep);
                s0.take(i as int).lemma_filter_push(s0[i as int], unprot);
                s0.take(i as int).lemma_filter_len(unprot);
                assert(s0[i as int] == self.rows@[i as int]@);
                if !protected(s0[i as int]) {
                    lemma_newer_unprotected_at(s0, i as int);
                }
            }
            let row = &self.rows[i];
            assert(row@ == s0[i as int]);
            let is_protected = row.is_favorite || row.is_pinned;
            if is_protected || seen < max_items {
                let ghost before = kept@;
                kept.push(row.duplicate());
                assert(kept@.map_values(|r: ClipItem| r@) =~= before.map_values(|r: ClipItem| r@).push(s0[i as int]));
            }
            if !is_protected {
                seen += 1;
            }
            i += 1;
        }
        assert(s0.take(s0.len() as int) == s0);
        proof { self.lemma_filter_keeps_wf(s0, keep, kept@.map_values(|r: ClipItem| r@)); }
        self.rows = kept;
    }
}

// ─── Reading ──────────────────────────────────────────────────────────────────

/// Where a page starts: an offset beyond the range of a signed 64-bit integer
/// counts as none, one past the end gives an empty page.
pub open spec fn page_start(len: int, offset: usize) -> int {
    if offset > i64::MAX {
        0
    } else if offset > len {
        len
    } else {
        offset as int
    }
}

/// Where a page ends: a limit beyond the range of a signed 64-bit integer counts as none.
pub open spec fn page_end(len: int, start: int, limit: usize) -> int {
    if limit > i64::MAX {
        len
    } else if start + limit > len {
        len
    } else {
        start + limit
    }
}

/// At most `limit` rows of `s`, after skipping `offset` of them.
pub open spec fn page(s: Seq<ClipRow>, limit: usize, offset: usize) -> Seq<ClipRow> {
    let start = page_start(s.len() as int, offset);
    s.subrange(start, page_end(s.len() as int, start, limit))
}

/// The rows of `s` with the given ids, in the order of `ids`; unknown ids are skipped.
pub open spec fn matched(s: Seq<ClipRow>, ids: Seq<i64>) -> Seq<ClipRow>
    decreases ids.len(),
{
    if ids.len() == 0 {
        Seq::empty()
    } else {
        let rest = matched(s, ids.drop_last());
        if has_id(s, ids.last()) {
            rest.push(s[id_pos(s, ids.last())])
        } else {
            rest
        }
    }
}

/// No id stands twice in `ids`.
pub open spec fn no_repeated_ids(ids: Seq<i64>) -> bool {
    forall|i: int, j: int| 0 <= i < ids.len() && 0 <= j < ids.len() && i != j ==> ids[i] != ids[j]
}

/// The rows matched by ids that do not repeat have distinct ids, each one of
/// the ids asked for.
pub proof fn lemma_matched_unique(s: Seq<ClipRow>, ids: Seq<i64>)
    ensures
        forall|k: int| 0 <= k < matched(s, ids).len() ==> ids.contains(#[trigger] matched(s, ids)[k].id),
        no_repeated_ids(ids) ==> unique_ids(matched(s, ids)),
    decreases ids.len(),
{
    if ids.len() > 0 {
        let u = ids.drop_last();
        lemma_matched_unique(s, u);
        let rest = matched(s, u);
        let m = matched(s, ids);
        assert forall|k: int| 0 <= k < m.len() implies ids.contains(#[trigger] m[k].id) by {
            if k < rest.len() {
                assert(m[k] == rest[k]);
                let j = choose|j: int| 0 <= j < u.len() && u[j] == rest[k].id;
                assert(ids[j] == u[j]);
            } else {
                assert(has_id(s, ids.last()));
                assert(m[k] == s[id_pos(s, ids.last())]);
                assert(ids[ids.len() - 1] == ids.last());
            }
        }
        if no_repeated_ids(ids) {
            assert(no_repeated_ids(u)) by {
                assert forall|i: int, j: int| 0 <= i < u.len() && 0 <= j < u.len() && i != j implies u[i] != u[j] by {
                    assert(u[i] == ids[i] && u[j] == ids[j]);
                }
            }
            if has_id(s, ids.last()) {
                let x = s[id_pos(s, ids.last())];
                assert(x.id == ids.last());
                assert forall|k: int| 0 <= k < rest.len() implies (#[trigger] rest[k]).id != x.id by {
                    assert(u.contains(rest[k].id));
                    let j = choose|j: int| 0 <= j < u.len() && u[j] == rest[k].id;
                    assert(ids[j] == u[j]);
                    assert(ids[ids.len() - 1] == x.id);
                }
                assert forall|i: int, j: int| 0 <= i < m.len() && 0 <= j < m.len() && i != j
                    implies #[trigger] m[i].id != #[trigger] m[j].id by {
                    if i < rest.len() && j < rest.len() {
                        assert(m[i] == rest[i] && m[j] == rest[j]);
                    } else if i < rest.len() {
                        assert(m[i] == rest[i] && m[j] == x);
                    } else {
                        assert(m[i] == x && m[j] == rest[j]);
                    }
                }
            }
        }
    }
}

/// A page of rows with distinct ids has distinct ids.
pub proof fn lemma_page_unique(s: Seq<ClipRow>, limit: usize, offset: usize)
    ensures
        unique_ids(s) ==> unique_ids(page(s, limit, offset)),
{
    let st = page_start(s.len() as int, offset);
    let p = page(s, limit, offset);
    if unique_ids(s) {
        assert forall|i: int, j: int| 0 <= i < p.len() && 0 <= j < p.len() && i != j
            implies #[trigger] p[i].id != #[trigger] p[j].id by {
            assert(p[i] == s[st + i] && p[j] == s[st + j]);
        }
    }
}

/// The value stored under `key` in `m`, or `default`.
pub open spec fn setting_or(m: Map<Seq<char>, Seq<char>>, key: Seq<char>, default: Seq<char>) -> Seq<char> {
    if m.contains_key(key) { m[key] } else { default }
}

/// A search string that is present and not blank.
pub open spec fn search_active(search: Option<&str>) -> bool {
    query_active(opt_ref_view(search))
}

/// A search text that is present and not blank.
pub open spec fn query_active(q: Option<Seq<char>>) -> bool {
    match q {
        Some(t) => !blank(t),
        None => false,
    }
}

/// The most recently used row of `s`, if any.
pub open spec fn latest(s: Seq<ClipRow>) -> Option<ClipRow>
    decreases s.len(),
{
    if s.len() == 0 {
        None
    } else {
        match latest(s.drop_last()) {
            None => Some(s.last()),
            Some(x) => if newer(s.last(), x) { Some(s.last()) } else { Some(x) },
        }
    }
}

/// Whether a search string selects the full-text path.
pub fn is_search_active(search: Option<&str>) -> (r: bool)
    ensures
        r == search_active(search),
{
    match search {
        Some(q) => !is_blank(&chars_of(q)),
        None => false,
    }
}

/// The full-text query for a search: the search with its double quotes
/// removed, as one quoted phrase matched as a prefix (`"…"*`).
pub open spec fn fts_query(search: Seq<char>) -> Seq<char> {
    "\""@ + search.filter(|c: char| c != '"') + "\"*"@
}

/// Writes the full-text query for a search.
pub fn fts_phrase(search: &str) -> (r: String)
    ensures
        r@ == fts_query(search@),
{
    let cs = chars_of(search);
    let mut out: Vec<char> = Vec::new();
    out.push('"');
    let mut i: usize = 0;
    while i < cs.len()
        invariant
            i <= cs.len(),
            cs@ == search@,
            out@ == seq!['"'] + search@.take(i as int).filter(|c: char| c != '"'),
        decreases cs.len() - i,
    {
        proof {
            assert(search@.take(i as int + 1) == search@.take(i as int).push(search@[i as int]));
            search@.take(i as int).lemma_filter_push(search@[i as int], |c: char| c != '"');
        }
        if cs[i] != '"' {
            out.push(cs[i]);
        }
        i += 1;
    }
    assert(search@.take(search@.len() as int) =~= search@);
    out.push('"');
    out.push('*');
    proof {
        reveal_strlit("\"");
        reveal_strlit("\"*");
    }
    assert(out@ =~= fts_query(search@));
    string_of(&out)
}

/// The rows of a list of entries.
pub open spec fn rows_of(items: Seq<ClipItem>) -> Seq<ClipRow> {
    items.map_values(|x: ClipItem| x@)
}

/// Copies of the rows of `v` between `from` and `to`.
fn copy_range(v: &Vec<ClipItem>, from: usize, to: usize) -> (r: Vec<ClipItem>)
    requires
        from <= to <= v.len(),
    ensures
        rows_of(r@) == rows_of(v@).subrange(from as int, to as int),
{
    let mut out: Vec<ClipItem> = Vec::new();
    let mut i = from;
    while i < to
        invariant
            from <= i <= to <= v.len(),
            rows_of(out@) == rows_of(v@).subrange(from as int, i as int),
        decreases to - i,
    {
        let ghost before = out@;
        out.push(v[i].duplicate());
        assert(rows_of(out@) =~= rows_of(before).push(v@[i as int]@));
        assert(rows_of(v@).subrange(from as int, i as int + 1) =~= rows_of(v@).subrange(from as int, i as int).push(v@[i as int]@));
        i += 1;
    }
    out
}

/// The page of `v` that `limit` and `offset` select.
fn page_of(v: &Vec<ClipItem>, limit: usize, offset: usize) -> (r: Vec<ClipItem>)
    ensures
        r@.map_values(|x: ClipItem| x@) == page(v@.map_values(|x: ClipItem| x@), limit, offset),
{
    let n = v.len();
    let start = if offset as u64 > 0x7fff_ffff_ffff_ffffu64 { 0 } else if offset > n { n } else { offset };
    let end = if limit as u64 > 0x7fff_ffff_ffff_ffffu64 { n } else if limit > n - start { n } else { start + limit };
    copy_range(v, start, end)
}

impl Database {
    /// A page of the history. With a non-blank search, the rows are those whose
    /// ids `ranked` lists (the full-text index's matches, best first); otherwise
    /// the whole history in listing order (pinned first, most recently used next).
    pub fn get_items(&self, search: Option<&str>, ranked: &Vec<i64>, limit: usize, offset: usize) -> (r: Vec<ClipItem>)
        requires
            self.wf(),
        ensures
            rows_of(r@) == if search_active(search) {
                page(matched(self.rows(), ranked@), limit, offset)
            } else {
                page(self.rows(), limit, offset)
            },
            (!search_active(search) || no_repeated_ids(ranked@)) ==> unique_ids(rows_of(r@)),
    {
        proof {
            lemma_matched_unique(self.rows(), ranked@);
            lemma_page_unique(matched(self.rows(), ranked@), limit, offset);
            lemma_page_unique(self.rows(), limit, offset);
        }
        if is_search_active(search) {
            let mut found: Vec<ClipItem> = Vec::new();
            let mut i: usize = 0;
            while i < ranked.len()
                invariant
                    i <= ranked.len(),
                    self.wf(),
                    rows_of(found@) == matched(self.rows(), ranked@.take(i as int)),
                decreases ranked.len() - i,
            {
                assert(ranked@.take(i as int + 1).drop_last() =~= ranked@.take(i as int));
                let ghost before = found@;
                match self.get_item(ranked[i]) {
                    Some(item) => {
                        found.push(item);
                        assert(rows_of(found@) =~= rows_of(before).push(item@));
                    }
                    None => {}
                }
                i += 1;
            }
            assert(ranked@.take(ranked.len() as int) =~= ranked@);
            page_of(&found, limit, offset)
        } else {
            page_of(&self.rows, limit, offset)
        }
    }

    /// The most recently used row, if any.
    pub fn latest_item(&self) -> (r: Option<ClipItem>)
        requires
            self.wf(),
        ensures
            match r {
                Some(item) => latest(self.rows()) == Some(item@),
                None => latest(self.rows()) == None::<ClipRow>,
            },
    {
        let ghost s = self.rows();
        let mut best: Option<usize> = None;
        let mut i: usize = 0;
        while i < self.rows.len()
            invariant
                i <= self.rows.len(),
                s == self.rows(),
                match best {
                    Some(b) => b < i && latest(s.take(i as int)) == Some(s[b as int]),
                    None => i == 0,
                },
            decreases self.rows.len() - i,
        {
            assert(s.take(i as int + 1).drop_last() =~= s.take(i as int));
            assert(s[i as int] == self.rows@[i as int]@);
            match best {
                None => {
                    best = Some(i);
                }
                Some(b) => {
                    assert(s[b as int] == self.rows@[b as int]@);
                    let row = &self.rows[i];
                    let cur = &self.rows[b];
                    if row.last_used > cur.last_used || (row.last_used == cur.last_used && row.id > cur.id) {
                        best = Some(i);
                    }
                }
            }
            i += 1;
        }
        assert(s.take(s.len() as int) =~= s);
        match best {
            Some(b) => Some(self.rows[b].duplicate()),
            None => None,
        }
    }

    /// The value stored under `key`, or `default` when there is none.
    pub fn get_setting(&self, key: &str, default: &str) -> (r: String)
        requires
            self.wf(),
        ensures
            r@ == setting_or(self.settings(), key@, default@),
    {
        match self.find_setting(key) {
            Some(k) => self.settings[k].1.clone(),
            None => string_from(default),
        }
    }

    /// The position of the setting stored under `key`, if there is one.
    fn find_setting(&self, key: &str) -> (r: Option<usize>)
        requires
            self.wf(),
        ensures
            match r {
                Some(k) => k < self.settings@.len() && self.settings@[k as int].0@ == key@
                    && self.settings().contains_key(key@) && self.settings()[key@] == self.settings@[k as int].1@,
                None => !self.settings().contains_key(key@),
            },
    {
        let mut i: usize = 0;
        while i < self.settings.len()
            invariant
                i <= self.settings.len(),
                self.wf(),
                forall|k: int| 0 <= k < i ==> (#[trigger] self.settings@[k]).0@ != key@,
            decreases self.settings.len() - i,
        {
            if str_eq(self.settings[i].0.as_str(), key) {
                proof {
                    assert(self.settings().contains_key(key@));
                    let c = choose|j: int| 0 <= j < self.settings@.len() && #[trigger] self.settings@[j].0@ == key@;
                    if c != i {
                        assert(self.settings@[c].0@ != self.settings@[i as int].0@);
                    }
                }
                return Some(i);
            }
            i += 1;
        }
        None
    }

    /// Stores `value` under `key`, replacing any earlier value.
    pub fn set_setting(&mut self, key: &str, value: &str)
        requires
            old(self).wf(),
        ensures
            final(self).wf(),
            final(self).settings() == old(self).settings().insert(key@, value@),
            final(self).rows() == old(self).rows(),
            final(self).last_id() == old(self).last_id(),
    {
        let ghost m0 = self.settings();
        let ghost t0 = self.settings@;
        match self.find_setting(key) {
            Some(k) => {
                self.settings.set(k, (string_from(key), string_from(value)));
                proof {
                    let t1 = self.settings@;
                    assert forall|i: int, j: int| #![trigger t1[i], t1[j]]
                        0 <= i < t1.len() && 0 <= j < t1.len() && i != j implies t1[i].0@ != t1[j].0@ by {
                        assert(t0[i].0@ != t0[j].0@);
                    }
                    assert forall|q: Seq<char>| self.settings().contains_key(q) == m0.insert(key@, value@).contains_key(q) by {
                        if q == key@ {
                            assert(t1[k as int].0@ == q);
                        } else if m0.contains_key(q) {
                            let c = choose|j: int| 0 <= j < t0.len() && #[trigger] t0[j].0@ == q;
                            assert(t1[c].0@ == q);
                        } else if self.settings().contains_key(q) {
                            let c = choose|j: int| 0 <= j < t1.len() && #[trigger] t1[j].0@ == q;
                            assert(t0[c].0@ == q);
                        }
                    }
                    assert forall|q: Seq<char>| #[trigger] self.settings().contains_key(q) implies self.settings()[q] == m0.insert(key@, value@)[q] by {
                        let c1 = choose|j: int| 0 <= j < t1.len() && #[trigger] t1[j].0@ == q;
                        if q == key@ {
                            assert(t1[k as int].0@ == q);
                            if c1 != k {
                                assert(t1[c1].0@ != t1[k as int].0@);
                            }
                        } else {
                            assert(c1 != k);
                            assert(t0[c1].0@ == q);
                            let c0 = choose|j: int| 0 <= j < t0.len() && #[trigger] t0[j].0@ == q;
                            if c0 != c1 {
                                assert(t0[c0].0@ != t0[c1].0@);
                            }
                        }
                    }
                    assert(self.settings() =~= m0.insert(key@, value@));
                }
            }
            None => {
                self.settings.push((string_from(key), string_from(value)));
                proof {
                    let t1 = self.settings@;
                    let n = t0.len() as int;
                    assert forall|i: int, j: int| #![trigger t1[i], t1[j]]
                        0 <= i < t1.len() && 0 <= j < t1.len() && i != j implies t1[i].0@ != t1[j].0@ by {
                        if i < n && j < n {
                            assert(t0[i].0@ != t0[j].0@);
                        } else if i == n {
                            assert(t1[j] == t0[j]);
                            assert(!(t0[j].0@ == key@));
                        } else {
                            assert(t1[i] == t0[i]);
                            assert(!(t0[i].0@ == key@));
                        }
                    }
                    assert forall|q: Seq<char>| self.settings().contains_key(q) == m0.insert(key@, value@).contains_key(q) by {
                        if q == key@ {
                            assert(t1[n].0@ == q);
                        } else if m0.contains_key(q) {
                            let c = choose|j: int| 0 <= j < t0.len() && #[trigger] t0[j].0@ == q;
                            assert(t1[c].0@ == q);
                        } else if self.settings().contains_key(q) {
                            let c = choose|j: int| 0 <= j < t1.len() && #[trigger] t1[j].0@ == q;
                            assert(t0[c].0@ == q);
                        }
                    }
                    assert forall|q: Seq<char>| #[trigger] self.settings().contains_key(q) implies self.settings()[q] == m0.insert(key@, value@)[q] by {
                        let c1 = choose|j: int| 0 <= j < t1.len() && #[trigger] t1[j].0@ == q;
                        if q == key@ {
                            assert(t1[n].0@ == q);
                            if c1 != n {
                                assert(t1[c1].0@ != t1[n].0@);
                            }
                        } else {
                            assert(c1 != n);
                            assert(t0[c1].0@ == q);
                            let c0 = choose|j: int| 0 <= j < t0.len() && #[trigger] t0[j].0@ == q;
                            if c0 != c1 {
                                assert(t0[c0].0@ != t0[c1].0@);
                            }
                        }
                    }
                    assert(self.settings() =~= m0.insert(key@, value@));
                }
            }
        }
    }
}

// ─── Laws ─────────────────────────────────────────────────────────────────────

/// Re-inserting a row of an ordered listing puts it back where it was.
proof fn lemma_reinsert(s: Seq<ClipRow>, k: int)
    requires
        in_list_order(s),
        0 <= k < s.len(),
    ensures
        insert_in_order(s.remove(k), s[k]) == s,
{
    let t = s.remove(k);
    assert forall|j: int| 0 <= j < k implies listed_before(#[trigger] t[j], s[k]) by {
        assert(t[j] == s[j]);
    }
    if k < t.len() {
        assert(t[k] == s[k + 1]);
        assert(listed_before(s[k], s[k + 1]));
    }
    lemma_insert_at(t, s[k], k);
    assert(t.insert(k, s[k]) =~= s);
}

/// The position ordered insertion gives a row whose id is new to the listing.
proof fn lemma_insert_in_order_finds(s: Seq<ClipRow>, x: ClipRow) -> (p: int)
    requires
        unique_ids(s),
        forall|j: int| 0 <= j < s.len() ==> (#[trigger] s[j]).id != x.id,
    ensures
        0 <= p <= s.len(),
        insert_in_order(s, x) == s.insert(p, x),
        has_id(insert_in_order(s, x), x.id),
        id_pos(insert_in_order(s, x), x.id) == p,
{
    let p = lemma_insert_in_order_position(s, x);
    let t = s.insert(p, x);
    assert(t[p] == x);
    let q = id_pos(t, x.id);
    if q != p {
        if q < p {
            assert(t[q] == s[q]);
        } else {
            assert(t[q] == s[q - 1]);
        }
    }
    p
}

/// Flipping the favorite mark of a row twice restores the listing.
pub proof fn law_favorite_toggle_twice(s: Seq<ClipRow>, id: i64)
    requires
        unique_ids(s),
        has_id(s, id),
    ensures
        has_id(favorite_toggled(s, id), id),
        favorite_toggled(favorite_toggled(s, id), id) == s,
{
    let k = id_pos(s, id);
    let t = favorite_toggled(s, id);
    assert(t[k].id == id);
    let q = id_pos(t, id);
    if q != k {
        assert(t[q] == s[q]);
        assert(s[q].id != s[k].id);
    }
    assert(favorite_toggled(t, id) =~= s);
}

/// Flipping the pinned mark of a row twice restores the listing.
pub proof fn law_pin_toggle_twice(s: Seq<ClipRow>, id: i64)
    requires
        store_listing(s),
        has_id(s, id),
    ensures
        has_id(pin_toggled(s, id), id),
        pin_toggled(pin_toggled(s, id), id) == s,
{
    let k = id_pos(s, id);
    lemma_remove_keeps(s, k, i64::MAX);
    let y = pin_flipped(s[k]);
    let p = lemma_insert_in_order_finds(s.remove(k), y);
    let t = pin_toggled(s, id);
    assert(t.remove(p) =~= s.remove(k));
    assert(pin_flipped(y) == s[k]);
    lemma_reinsert(s, k);
}

/// A row protected by a favorite or pinned mark survives any trimming.
pub proof fn law_trim_keeps_protected(s: Seq<ClipRow>, max: nat, r: ClipRow)
    requires
        s.contains(r),
        protected(r),
    ensures
        trimmed(s, max).contains(r),
{
    let k = choose|k: int| 0 <= k < s.len() && s[k] == r;
    s.lemma_filter_contains(retained_in(s, max), k);
}

/// Trimming to `max` leaves `max` unprotected rows, or all of them when there are fewer.
pub proof fn law_trim_count(s: Seq<ClipRow>, max: nat)
    requires
        in_list_order(s),
    ensures
        trimmed(s, max).filter(unprotected()).len() == if s.filter(unprotected()).len() < max {
            s.filter(unprotected()).len()
        } else {
            max
        },
    decreases s.len(),
{
    lemma_trim_prefix_count(s, max, s.len() as int);
    assert(s.take(s.len() as int) =~= s);
}

/// Counting over a prefix: the unprotected rows kept among the first `i` rows.
proof fn lemma_trim_prefix_count(s: Seq<ClipRow>, max: nat, i: int)
    requires
        in_list_order(s),
        0 <= i <= s.len(),
    ensures
        s.take(i).filter(retained_in(s, max)).filter(unprotected()).len() == if s.take(i).filter(unprotected()).len() < max {
            s.take(i).filter(unprotected()).len()
        } else {
            max
        },
    decreases i,
{
    let keep = retained_in(s, max);
    let u = unprotected();
    if i == 0 {
        assert(s.take(0) =~= Seq::<ClipRow>::empty());
        reveal(Seq::filter);
        assert(s.take(0).filter(keep) =~= Seq::<ClipRow>::empty());
    } else {
        lemma_trim_prefix_count(s, max, i - 1);
        assert(s.take(i) == s.take(i - 1).push(s[i - 1]));
        s.take(i - 1).lemma_filter_push(s[i - 1], keep);
        s.take(i - 1).lemma_filter_push(s[i - 1], u);
        s.take(i - 1).filter(keep).lemma_filter_push(s[i - 1], u);
        if !protected(s[i - 1]) {
            lemma_newer_unprotected_at(s, i - 1);
        }
    }
}

/// Trimming drops only rows older than every unprotected row it keeps.
pub proof fn law_trim_drops_oldest(s: Seq<ClipRow>, max: nat, i: int, j: int)
    requires
        in_list_order(s),
        unique_ids(s),
        0 <= i < s.len(),
        0 <= j < s.len(),
        !protected(s[i]),
        retained(s, max, s[i]),
        !retained(s, max, s[j]),
    ensures
        newer(s[i], s[j]),
{
    if i != j {
        assert(s[i].id != s[j].id);
        if newer(s[j], s[i]) {
            lemma_newer_has_fewer(s, j, i);
        }
    }
}

/// Clearing the history (trimming to zero) leaves exactly the protected rows.
pub proof fn law_clear_keeps_only_protected(s: Seq<ClipRow>)
    ensures
        trimmed(s, 0) == s.filter(|r: ClipRow| protected(r)),
{
    lemma_filter_agree(s, retained_in(s, 0), |r: ClipRow| protected(r));
}

/// Filtering twice is filtering by both predicates.
proof fn lemma_filter_filter(s: Seq<ClipRow>, p: spec_fn(ClipRow) -> bool, q: spec_fn(ClipRow) -> bool)
    ensures
        s.filter(p).filter(q) == s.filter(|x: ClipRow| p(x) && q(x)),
    decreases s.len(),
{
    reveal(Seq::filter);
    if s.len() > 0 {
        let u = s.drop_last();
        lemma_filter_filter(u, p, q);
        assert(s == u.push(s.last()));
        u.lemma_filter_push(s.last(), p);
        u.lemma_filter_push(s.last(), |x: ClipRow| p(x) && q(x));
        if p(s.last()) {
            u.filter(p).lemma_filter_push(s.last(), q);
        }
    }
}

/// A row that is newer and unprotected has fewer newer unprotected rows.
proof fn lemma_newer_has_fewer(s: Seq<ClipRow>, a: int, b: int)
    requires
        in_list_order(s),
        0 <= a < s.len(),
        0 <= b < s.len(),
        !protected(s[a]),
        !protected(s[b]),
        newer(s[a], s[b]),
    ensures
        newer_unprotected(s, s[a]) < newer_unprotected(s, s[b]),
{
    lemma_newer_unprotected_at(s, a);
    lemma_newer_unprotected_at(s, b);
    if a >= b {
        if a > b {
            assert(listed_before(s[b], s[a]));
        }
    }
    assert(a < b);
    let u = unprotected();
    assert(s.take(b) == s.take(a) + s.subrange(a, b));
    Seq::filter_distributes_over_add(s.take(a), s.subrange(a, b), u);
    assert(s.subrange(a, b) == seq![s[a]] + s.subrange(a + 1, b));
    Seq::filter_distributes_over_add(seq![s[a]], s.subrange(a + 1, b), u);
    reveal(Seq::filter);
    assert(seq![s[a]].drop_last() =~= Seq::<ClipRow>::empty());
    assert(seq![s[a]].filter(u).len() == 1);
}

/// Trimming twice to the same limit changes nothing more.
pub proof fn law_trim_idempotent(s: Seq<ClipRow>, max: nat)
    requires
        in_list_order(s),
    ensures
        trimmed(trimmed(s, max), max) == trimmed(s, max),
{
    let keep = retained_in(s, max);
    let t = trimmed(s, max);
    lemma_filter_subsequence(s, keep);
    let idx = choose|idx: Seq<int>| is_subsequence_map(s, s.filter(keep), idx);
    assert forall|k: int| 0 <= k < t.len() implies #[trigger] retained_in(t, max)(t[k]) == (|r: ClipRow| true)(t[k]) by {
        s.lemma_filter_pred(keep, k);
        let i = idx[k];
        assert(t[k] == s[i]);
        if !protected(t[k]) {
            let r = t[k];
            let pr = |y: ClipRow| !protected(y) && newer(y, r);
            lemma_filter_filter(s, keep, pr);
            assert forall|j: int| 0 <= j < s.len() implies (|x: ClipRow| keep(x) && pr(x))(#[trigger] s[j]) == pr(s[j]) by {
                if pr(s[j]) {
                    lemma_newer_has_fewer(s, j, i);
                }
            }
            lemma_filter_agree(s, |x: ClipRow| keep(x) && pr(x), pr);
        }
    }
    lemma_filter_agree(t, retained_in(t, max), |r: ClipRow| true);
    lemma_filter_all(t);
}

/// Filtering with an always-true predicate changes nothing.
proof fn lemma_filter_all(s: Seq<ClipRow>)
    ensures
        s.filter(|r: ClipRow| true) == s,
    decreases s.len(),
{
    reveal(Seq::filter);
    if s.len() > 0 {
        lemma_filter_all(s.drop_last());
        assert(s.drop_last().push(s.last()) =~= s);
    }
}

/// Recording a new payload adds one row, and that payload's hash then leads to
/// the new row: recording the same content again refreshes it rather than adding another.
pub proof fn law_record_then_found(s: Seq<ClipRow>, x: ClipRow)
    requires
        store_listing(s),
        !has_hash(s, x.hash),
        forall|j: int| 0 <= j < s.len() ==> (#[trigger] s[j]).id != x.id,
    ensures
        insert_in_order(s, x).len() == s.len() + 1,
        has_hash(insert_in_order(s, x), x.hash),
        insert_in_order(s, x)[hash_pos(insert_in_order(s, x), x.hash)] == x,
{
    let p = lemma_insert_in_order_finds(s, x);
    let t = insert_in_order(s, x);
    assert(t[p] == x);
    let q = hash_pos(t, x.hash);
    if q != p {
        if q < p {
            assert(t[q] == s[q]);
        } else {
            assert(t[q] == s[q - 1]);
        }
    }
}

/// A payload not yet stored gets the id after the last one handed out, which
/// no stored row has: ids are never reused.
pub proof fn law_new_ids_fresh(s: Seq<ClipRow>, last: i64, item: NewRow, now: i64)
    requires
        ids_within(s, last),
        !has_hash(s, item.hash),
        last < i64::MAX,
    ensures
        upsert_outcome(s, last, item, now).0 == Ok::<(i64, bool), StoreError>(((last + 1) as i64, true)),
        upsert_outcome(s, last, item, now).2 == last + 1,
        forall|k: int| 0 <= k < s.len() ==> (#[trigger] s[k]).id < last + 1,
{
}

/// Inserting a row whose hash is new keeps the hashes distinct.
proof fn lemma_insert_unique_hash(t: Seq<ClipRow>, p: int, x: ClipRow)
    requires
        unique_hashes(t),
        0 <= p <= t.len(),
        forall|j: int| 0 <= j < t.len() ==> (#[trigger] t[j]).hash != x.hash,
    ensures
        unique_hashes(t.insert(p, x)),
        t.insert(p, x)[p] == x,
{
    let u = t.insert(p, x);
    assert forall|i: int, j: int| 0 <= i < u.len() && 0 <= j < u.len() && i != j
        implies #[trigger] u[i].hash != #[trigger] u[j].hash by {
        let a = if i < p { i } else { i - 1 };
        let b = if j < p { j } else { j - 1 };
        if i != p {
            assert(u[i] == t[a]);
        }
        if j != p {
            assert(u[j] == t[b]);
        }
    }
}

/// Recording a payload never makes two rows share a hash: afterwards exactly
/// one row has its hash, and recording a hash already stored keeps the number
/// of rows.
pub proof fn law_upsert_no_duplicates(s: Seq<ClipRow>, last: i64, item: NewRow, now: i64)
    requires
        store_listing(s),
        ids_within(s, last),
    ensures
        upsert_outcome(s, last, item, now).0 is Ok ==> has_hash(upsert_outcome(s, last, item, now).1, item.hash),
        unique_hashes(upsert_outcome(s, last, item, now).1),
        has_hash(s, item.hash) ==> upsert_outcome(s, last, item, now).1.len() == s.len(),
{
    let t = upsert_outcome(s, last, item, now).1;
    if has_hash(s, item.hash) {
        let k = hash_pos(s, item.hash);
        if s[k].use_count != i64::MAX {
            law_touch_keeps_row(s, item.hash, now);
            lemma_remove_keeps(s, k, i64::MAX);
            let y = touched(s[k], now);
            let p = lemma_insert_in_order_finds(s.remove(k), y);
            lemma_insert_unique_hash(s.remove(k), p, y);
        }
    } else if last != i64::MAX {
        let x = fresh_row((last + 1) as i64, item, now);
        assert forall|j: int| 0 <= j < s.len() implies (#[trigger] s[j]).id != x.id by {}
        let p = lemma_insert_in_order_finds(s, x);
        assert forall|j: int| 0 <= j < s.len() implies (#[trigger] s[j]).hash != x.hash by {
            if s[j].hash == x.hash {
                assert(has_hash(s, item.hash));
            }
        }
        lemma_insert_unique_hash(s, p, x);
        assert(t[p].hash == item.hash);
    }
}

/// Recording a payload in a store never leaves two rows with one hash: when it
/// succeeds exactly one row has the payload's hash, and recording a hash the
/// store already holds keeps its number of rows.
pub proof fn law_store_upsert_no_duplicates(db: Database, item: NewRow, now: i64)
    requires
        db.wf(),
    ensures
        upsert_outcome(db.rows(), db.last_id(), item, now).0 is Ok
            ==> has_hash(upsert_outcome(db.rows(), db.last_id(), item, now).1, item.hash),
        unique_hashes(upsert_outcome(db.rows(), db.last_id(), item, now).1),
        has_hash(db.rows(), item.hash) ==> upsert_outcome(db.rows(), db.last_id(), item, now).1.len() == db.rows().len(),
{
    db.lemma_wf_listing();
    law_upsert_no_duplicates(db.rows(), db.last_id(), item, now);
}

/// Clearing old entries leaves no unprotected row last used more than `days`
/// days before `now`, and keeps every favorite and pinned row.
pub proof fn law_age_cut_clears_old(s: Seq<ClipRow>, now: i64, days: u32)
    requires
        days > 0,
    ensures
        forall|r: ClipRow| #[trigger] age_cut(s, now, Some(days)).contains(r) <==> s.contains(r)
            && (r.is_favorite || r.is_pinned || r.last_used >= now - days * 86_400_000),
{
    let keep = kept_after(now, days);
    assert forall|r: ClipRow| #[trigger] s.filter(keep).contains(r) <==> s.contains(r)
        && (r.is_favorite || r.is_pinned || r.last_used >= now - days * 86_400_000) by {
        if s.filter(keep).contains(r) {
            let k = choose|k: int| 0 <= k < s.filter(keep).len() && s.filter(keep)[k] == r;
            s.lemma_filter_pred(keep, k);
            lemma_filter_in(s, keep, r);
        }
        if s.contains(r) && keep(r) {
            let k = choose|k: int| 0 <= k < s.len() && s[k] == r;
            s.lemma_filter_contains(keep, k);
        }
    }
}

/// A row of a filtered sequence is a row of the sequence.
proof fn lemma_filter_in(s: Seq<ClipRow>, p: spec_fn(ClipRow) -> bool, r: ClipRow)
    requires
        s.filter(p).contains(r),
    ensures
        s.contains(r),
{
    lemma_filter_subsequence(s, p);
    let idx = choose|idx: Seq<int>| is_subsequence_map(s, s.filter(p), idx);
    let k = choose|k: int| 0 <= k < s.filter(p).len() && s.filter(p)[k] == r;
    assert(s[idx[k]] == r);
}

/// Clearing the history keeps exactly the rows marked favorite or pinned; no
/// other field of a row (its use count, its age) saves it.
pub proof fn law_clear_keeps_marked(s: Seq<ClipRow>)
    ensures
        forall|r: ClipRow| #[trigger] trimmed(s, 0).contains(r) <==> s.contains(r) && (r.is_favorite || r.is_pinned),
{
    law_clear_keeps_only_protected(s);
    let p = |r: ClipRow| protected(r);
    assert forall|r: ClipRow| #[trigger] s.filter(p).contains(r) <==> s.contains(r) && (r.is_favorite || r.is_pinned) by {
        if s.filter(p).contains(r) {
            let k = choose|k: int| 0 <= k < s.filter(p).len() && s.filter(p)[k] == r;
            s.lemma_filter_pred(p, k);
            lemma_filter_in(s, p, r);
        }
        if s.contains(r) && (r.is_favorite || r.is_pinned) {
            let k = choose|k: int| 0 <= k < s.len() && s[k] == r;
            s.lemma_filter_contains(p, k);
        }
    }
}

/// Trimming to `max` leaves `max` rows with neither mark (all of them when
/// there are fewer), whatever their use counts: only the favorite and pinned
/// marks take a row out of the count.
pub proof fn law_trim_counts_unmarked(s: Seq<ClipRow>, max: nat)
    requires
        in_list_order(s),
    ensures
        ({
            let unmarked = |r: ClipRow| !r.is_favorite && !r.is_pinned;
            trimmed(s, max).filter(unmarked).len() == if s.filter(unmarked).len() < max {
                s.filter(unmarked).len()
            } else {
                max
            }
        }),
{
    let unmarked = |r: ClipRow| !r.is_favorite && !r.is_pinned;
    law_trim_count(s, max);
    lemma_filter_agree(s, unprotected(), unmarked);
    lemma_filter_agree(trimmed(s, max), unprotected(), unmarked);
}

/// Recording a payload whose hash is stored refreshes that row and nothing
/// else: it keeps its id, content, type, size, creation time and its favorite
/// and pinned marks; its last use becomes `now` and its use count grows by
/// one; every other row stays as it was, and the number of rows is kept.
pub proof fn law_upsert_refreshes_use_only(s: Seq<ClipRow>, last: i64, item: NewRow, now: i64)
    requires
        store_listing(s),
        has_hash(s, item.hash),
        s[hash_pos(s, item.hash)].use_count < i64::MAX,
    ensures
        ({
            let before = s[hash_pos(s, item.hash)];
            let (res, t, l) = upsert_outcome(s, last, item, now);
            let after = t[hash_pos(t, item.hash)];
            &&& res == Ok::<(i64, bool), StoreError>((before.id, false))
            &&& l == last
            &&& t.len() == s.len()
            &&& has_hash(t, item.hash)
            &&& after.id == before.id && after.hash == before.hash && after.content == before.content
            &&& after.blob_path == before.blob_path && after.mime_type == before.mime_type
            &&& after.byte_size == before.byte_size && after.created_at == before.created_at
            &&& after.is_favorite == before.is_favorite && after.is_pinned == before.is_pinned
            &&& after.last_used == now && after.use_count == before.use_count + 1
            &&& forall|k: int| 0 <= k < t.len() && t[k].hash != item.hash ==> s.contains(#[trigger] t[k])
        }),
{
    let h = item.hash;
    let k = hash_pos(s, h);
    lemma_remove_keeps(s, k, i64::MAX);
    let y = touched(s[k], now);
    let u = s.remove(k);
    let p = lemma_insert_in_order_finds(u, y);
    let t = upsert_outcome(s, last, item, now).1;
    assert(t == u.insert(p, y));
    lemma_insert_unique_hash(u, p, y);
    assert(has_hash(t, h)) by { assert(t[p].hash == h); }
    let q = hash_pos(t, h);
    assert(q == p) by {
        if q != p {
            assert(t[q].hash != t[p].hash);
        }
    }
    assert forall|j: int| 0 <= j < t.len() && t[j].hash != h implies s.contains(#[trigger] t[j]) by {
        let a = if j < p { j } else { j - 1 };
        assert(t[j] == u[a]);
        let b = if a < k { a } else { a + 1 };
        assert(u[a] == s[b]);
    }
}

/// Flipping the pinned mark changes that mark and nothing else: the row keeps
/// its id, content, timestamps, use count and favorite mark; every other row
/// stays as it was, and the number of rows is kept.
pub proof fn law_pin_toggle_changes_pin_only(s: Seq<ClipRow>, id: i64)
    requires
        store_listing(s),
        has_id(s, id),
    ensures
        ({
            let before = s[id_pos(s, id)];
            let t = pin_toggled(s, id);
            let after = t[id_pos(t, id)];
            &&& has_id(t, id)
            &&& t.len() == s.len()
            &&& after.is_pinned == !before.is_pinned
            &&& after.id == before.id && after.hash == before.hash && after.content == before.content
            &&& after.blob_path == before.blob_path && after.mime_type == before.mime_type
            &&& after.byte_size == before.byte_size && after.created_at == before.created_at
            &&& after.last_used == before.last_used && after.use_count == before.use_count
            &&& after.is_favorite == before.is_favorite
            &&& forall|k: int| 0 <= k < t.len() && t[k].id != id ==> s.contains(#[trigger] t[k])
        }),
{
    let k = id_pos(s, id);
    lemma_remove_keeps(s, k, i64::MAX);
    let y = pin_flipped(s[k]);
    let u = s.remove(k);
    let p = lemma_insert_in_order_finds(u, y);
    let t = pin_toggled(s, id);
    assert(t == u.insert(p, y));
    assert forall|j: int| 0 <= j < t.len() && t[j].id != id implies s.contains(#[trigger] t[j]) by {
        let a = if j < p { j } else { j - 1 };
        assert(t[j] == u[a]);
        let b = if a < k { a } else { a + 1 };
        assert(u[a] == s[b]);
    }
}

/// Flipping the favorite mark changes that mark and nothing else: the row
/// keeps its place, its id, content, timestamps, use count and pinned mark;
/// every other row stays as it was.
pub proof fn law_favorite_toggle_changes_favorite_only(s: Seq<ClipRow>, id: i64)
    requires
        unique_ids(s),
        has_id(s, id),
    ensures
        ({
            let k = id_pos(s, id);
            let t = favorite_toggled(s, id);
            &&& t.len() == s.len()
            &&& has_id(t, id) && id_pos(t, id) == k
            &&& t[k].is_favorite == !s[k].is_favorite
            &&& t[k].id == s[k].id && t[k].hash == s[k].hash && t[k].content == s[k].content
            &&& t[k].blob_path == s[k].blob_path && t[k].mime_type == s[k].mime_type
            &&& t[k].byte_size == s[k].byte_size && t[k].created_at == s[k].created_at
            &&& t[k].last_used == s[k].last_used && t[k].use_count == s[k].use_count
            &&& t[k].is_pinned == s[k].is_pinned
            &&& forall|j: int| 0 <= j < t.len() && j != k ==> #[trigger] t[j] == s[j]
        }),
{
    let k = id_pos(s, id);
    let t = favorite_toggled(s, id);
    assert(t[k].id == id);
    let q = id_pos(t, id);
    if q != k {
        assert(t[q] == s[q]);
        assert(s[q].id != s[k].id);
    }
}

/// Using a stored payload again keeps the number of rows and keeps its row's id.
pub proof fn law_touch_keeps_row(s: Seq<ClipRow>, h: Seq<char>, now: i64)
    requires
        store_listing(s),
        has_hash(s, h),
    ensures
        touched_rows(s, h, now).len() == s.len(),
        has_hash(touched_rows(s, h, now), h),
        touched_rows(s, h, now)[hash_pos(touched_rows(s, h, now), h)].id == s[hash_pos(s, h)].id,
{
    let k = hash_pos(s, h);
    lemma_remove_keeps(s, k, i64::MAX);
    let y = touched(s[k], now);
    let p = lemma_insert_in_order_finds(s.remove(k), y);
    let t = touched_rows(s, h, now);
    assert(t[p] == y);
    let q = hash_pos(t, h);
    if q != p {
        if q < p {
            assert(t[q] == s.remove(k)[q]);
        } else {
            assert(t[q] == s.remove(k)[q - 1]);
        }
    }
}

/// A setting reads back as the value last written under its key.
pub proof fn law_setting_read_back(m: Map<Seq<char>, Seq<char>>, key: Seq<char>, value: Seq<char>, default: Seq<char>)
    ensures
        setting_or(m.insert(key, value), key, default) == value,
{
}

/// Writing one setting leaves the others as they were.
pub proof fn law_setting_other_keys(m: Map<Seq<char>, Seq<char>>, key: Seq<char>, value: Seq<char>, other: Seq<char>, default: Seq<char>)
    requires
        other != key,
    ensures
        setting_or(m.insert(key, value), other, default) == setting_or(m, other, default),
{
}

/// After deleting an id, no row has it.
pub proof fn law_deleted_absent(s: Seq<ClipRow>, id: i64)
    ensures
        !has_id(s.filter(|r: ClipRow| r.id != id), id),
{
    let f = s.filter(|r: ClipRow| r.id != id);
    if has_id(f, id) {
        let k = choose|k: int| 0 <= k < f.len() && f[k].id == id;
        s.lemma_filter_pred(|r: ClipRow| r.id != id, k);
    }
}

/// A page of an ordered listing is in listing order: pinned rows first, then the most recently used.
pub proof fn law_page_in_order(s: Seq<ClipRow>, limit: usize, offset: usize)
    requires
        in_list_order(s),
    ensures
        in_list_order(page(s, limit, offset)),
{
    let st = page_start(s.len() as int, offset);
    let p = page(s, limit, offset);
    assert forall|i: int, j: int| 0 <= i < j < p.len() implies listed_before(#[trigger] p[i], #[trigger] p[j]) by {
        assert(p[i] == s[st + i] && p[j] == s[st + j]);
    }
}

/// The latest row is a row of the listing, newer than every other one; there is
/// none exactly when the listing is empty.
pub proof fn law_latest_is_newest(s: Seq<ClipRow>)
    requires
        unique_ids(s),
    ensures
        latest(s) is None <==> s.len() == 0,
        latest(s) matches Some(r) ==> s.contains(r) && forall|k: int| 0 <= k < s.len() && (#[trigger] s[k]).id != r.id ==> newer(r, s[k]),
    decreases s.len(),
{
    if s.len() > 0 {
        let u = s.drop_last();
        assert(unique_ids(u)) by {
            assert forall|i: int, j: int| 0 <= i < u.len() && 0 <= j < u.len() && i != j implies #[trigger] u[i].id != #[trigger] u[j].id by {
                assert(u[i] == s[i] && u[j] == s[j]);
            }
        }
        law_latest_is_newest(u);
        let r = latest(s)->0;
        match latest(u) {
            None => {
                assert(r == s.last());
                assert(s.contains(r)) by { assert(s[s.len() - 1] == r); }
            }
            Some(x) => {
                let kx = choose|k: int| 0 <= k < u.len() && u[k] == x;
                assert(s[kx] == x);
                assert(x.id != s.last().id) by { assert(s[kx].id != s[s.len() - 1].id); }
                if newer(s.last(), x) {
                    assert(s.contains(r)) by { assert(s[s.len() - 1] == r); }
                    assert forall|k: int| 0 <= k < s.len() && (#[trigger] s[k]).id != r.id implies newer(r, s[k]) by {
                        if k < s.len() - 1 {
                            assert(s[k] == u[k]);
                            if u[k].id != x.id {
                                assert(newer(x, u[k]));
                            }
                        }
                    }
                } else {
                    assert(s.contains(r));
                    assert forall|k: int| 0 <= k < s.len() && (#[trigger] s[k]).id != r.id implies newer(r, s[k]) by {
                        if k < s.len() - 1 {
                            assert(s[k] == u[k]);
                        }
                    }
                }
            }
        }
    }
}


// ─── Timestamps ───────────────────────────────────────────────────────────────

#[verifier::external_type_specification]
#[verifier::external_body]
pub struct ExSystemTime(std::time::SystemTime);

/// Reads the system clock (std's `SystemTime::now`). Nothing is claimed of the
/// time it reads.
#[verifier::external_body]
fn system_now() -> (r: std::time::SystemTime) {
    std::time::SystemTime::now()
}

/// How long after the Unix epoch a time lies (std's `SystemTime::duration_since`
/// with `UNIX_EPOCH`), `None` for a time before it. Nothing is claimed of the
/// value: the time is opaque here.
#[verifier::external_body]
fn since_epoch(t: &std::time::SystemTime) -> (r: Option<std::time::Duration>) {
    t.duration_since(std::time::UNIX_EPOCH).ok()
}

/// The whole milliseconds of a duration (std's `Duration::as_millis`). Nothing
/// is claimed of the value: the duration is opaque here.
#[verifier::external_body]
fn whole_millis(d: &std::time::Duration) -> (r: u128) {
    d.as_millis()
}

/// The timestamp for a count of milliseconds since the epoch: the count cut to
/// a signed 64-bit integer as `as i64` cuts it, and 0 for a clock set before the
/// epoch.
pub open spec fn timestamp_of(millis: Option<u128>) -> i64 {
    match millis {
        Some(ms) => ms as i64,
        None => 0,
    }
}

/// Turns milliseconds since the epoch into a timestamp.
pub fn timestamp_ms(millis: Option<u128>) -> (r: i64)
    ensures
        r == timestamp_of(millis),
{
    match millis {
        Some(ms) => ms as i64,
        None => 0,
    }
}

/// The current time in milliseconds since the Unix epoch (0 if the clock is set
/// before it). The clock's reading is not stated; what is done with it is
/// [`timestamp_ms`].
pub fn now_ms() -> i64 {
    let now = system_now();
    let millis = match since_epoch(&now) {
        Some(d) => Some(whole_millis(&d)),
        None => None,
    };
    timestamp_ms(millis)
}

} // verus!
