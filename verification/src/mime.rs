//! MIME type rules: which payloads are text, how text is refined into a more
//! specific type, which offered type the monitor takes, and how types are named
//! in the interface.
use vstd::prelude::*;

use crate::text::{
    blank, chars_of, contains, ends_with, has_prefix, has_substring, has_suffix, is_ws, starts_with,
    str_contains, str_eq, str_starts_with, string_from, trim, trim_chars,
};

verus! {

// ─── Categories ───────────────────────────────────────────────────────────────

/// The interface category of a MIME type.
pub open spec fn mime_category(m: Seq<char>) -> Seq<char> {
    if has_prefix(m, "image/"@) {
        "image"@
    } else if m == "text/uri-list"@ {
        "files"@
    } else if m == "text/html"@ {
        "html"@
    } else if has_prefix(m, "text/"@) {
        "text"@
    } else {
        "binary"@
    }
}

/// Classifies a MIME type into the category the interface shows.
pub fn classify_mime(mime: &str) -> (r: &'static str)
    ensures
        r@ == mime_category(mime@),
{
    if str_starts_with(mime, "image/") {
        "image"
    } else if str_eq(mime, "text/uri-list") {
        "files"
    } else if str_eq(mime, "text/html") {
        "html"
    } else if str_starts_with(mime, "text/") {
        "text"
    } else {
        "binary"
    }
}

/// The more specific type of a text payload, judged by its trimmed content.
pub open spec fn refined_text_mime(content: Seq<char>) -> Seq<char> {
    let t = trim(content);
    if has_prefix(t, "http://"@) || has_prefix(t, "https://"@) || has_prefix(t, "ftp://"@) {
        "text/uri"@
    } else if has_prefix(t, "{"@) || has_prefix(t, "["@) {
        "text/json"@
    } else if has_prefix(t, "<"@) && (has_substring(t, "</"@) || has_suffix(t, "/>"@)) {
        "text/html"@
    } else {
        "text/plain"@
    }
}

/// Infers the most specific MIME type of a text payload from its content.
pub fn refine_text_mime(content: &str) -> (r: &'static str)
    ensures
        r@ == refined_text_mime(content@),
{
    let t = trim_chars(&chars_of(content));
    if starts_with(&t, &chars_of("http://")) || starts_with(&t, &chars_of("https://")) || starts_with(&t, &chars_of("ftp://")) {
        "text/uri"
    } else if starts_with(&t, &chars_of("{")) || starts_with(&t, &chars_of("[")) {
        "text/json"
    } else if starts_with(&t, &chars_of("<")) && (contains(&t, &chars_of("</")) || ends_with(&t, &chars_of("/>"))) {
        "text/html"
    } else {
        "text/plain"
    }
}

/// A payload of this type is decoded as UTF-8 text.
pub open spec fn text_mime(m: Seq<char>) -> bool {
    has_prefix(m, "text/"@) || m == "application/json"@ || m == "application/xml"@
}

/// Whether a payload of this MIME type is text.
pub fn is_text_mime(mime: &str) -> (r: bool)
    ensures
        r == text_mime(mime@),
{
    str_starts_with(mime, "text/") || str_eq(mime, "application/json") || str_eq(mime, "application/xml")
}

// ─── Choosing among offered types ─────────────────────────────────────────────

/// The types the monitor prefers, best first.
pub open spec fn preferred_mimes() -> Seq<Seq<char>> {
    seq![
        "text/plain;charset=utf-8"@,
        "text/plain"@,
        "image/png"@,
        "image/jpeg"@,
        "image/webp"@,
        "text/html"@,
        "text/uri-list"@,
        "application/json"@,
    ]
}

/// The first of `prio` that `offered` holds.
pub open spec fn first_offered(prio: Seq<Seq<char>>, offered: Seq<Seq<char>>) -> Option<Seq<char>>
    decreases prio.len(),
{
    if prio.len() == 0 {
        None
    } else if offered.contains(prio[0]) {
        Some(prio[0])
    } else {
        first_offered(prio.drop_first(), offered)
    }
}

/// The first offered type that is some kind of text.
pub open spec fn first_text(offered: Seq<Seq<char>>) -> Option<Seq<char>>
    decreases offered.len(),
{
    if offered.len() == 0 {
        None
    } else if has_prefix(offered[0], "text/"@) {
        Some(offered[0])
    } else {
        first_text(offered.drop_first())
    }
}

/// The type taken from an offer: the best preferred one on offer, or else the
/// first textual one.
pub open spec fn chosen_mime(offered: Seq<Seq<char>>) -> Option<Seq<char>> {
    match first_offered(preferred_mimes(), offered) {
        Some(m) => Some(m),
        None => first_text(offered),
    }
}

pub open spec fn mime_views(ms: Seq<String>) -> Seq<Seq<char>> {
    ms.map_values(|m: String| m@)
}

/// Whether `ms` holds `m`.
fn offers(ms: &Vec<String>, m: &str) -> (r: bool)
    ensures
        r == mime_views(ms@).contains(m@),
{
    let mut i: usize = 0;
    while i < ms.len()
        invariant
            i <= ms.len(),
            forall|k: int| 0 <= k < i ==> ms@[k]@ != m@,
        decreases ms.len() - i,
    {
        if str_eq(ms[i].as_str(), m) {
            assert(mime_views(ms@)[i as int] == m@);
            return true;
        }
        i += 1;
    }
    assert forall|k: int| 0 <= k < mime_views(ms@).len() implies mime_views(ms@)[k] != m@ by {
        assert(mime_views(ms@)[k] == ms@[k]@);
    }
    false
}

/// Chooses which of the offered MIME types to read from a clipboard offer.
pub fn select_mime(mimes: &Vec<String>) -> (r: Option<String>)
    ensures
        match r {
            Some(m) => chosen_mime(mime_views(mimes@)) == Some(m@),
            None => chosen_mime(mime_views(mimes@)) == None::<Seq<char>>,
        },
{
    let ghost o = mime_views(mimes@);
    let ghost p = preferred_mimes();
    assert(p.drop_first() =~= seq!["text/plain"@, "image/png"@, "image/jpeg"@, "image/webp"@, "text/html"@, "text/uri-list"@, "application/json"@]);
    proof {
        reveal_with_fuel(first_offered, 9);
    }
    if offers(mimes, "text/plain;charset=utf-8") {
        return Some(string_from("text/plain;charset=utf-8"));
    }
    if offers(mimes, "text/plain") {
        return Some(string_from("text/plain"));
    }
    if offers(mimes, "image/png") {
        return Some(string_from("image/png"));
    }
    if offers(mimes, "image/jpeg") {
        return Some(string_from("image/jpeg"));
    }
    if offers(mimes, "image/webp") {
        return Some(string_from("image/webp"));
    }
    if offers(mimes, "text/html") {
        return Some(string_from("text/html"));
    }
    if offers(mimes, "text/uri-list") {
        return Some(string_from("text/uri-list"));
    }
    if offers(mimes, "application/json") {
        return Some(string_from("application/json"));
    }
    assert(first_offered(p, o) == None::<Seq<char>>);
    assert(o.skip(0) =~= o);
    let mut i: usize = 0;
    while i < mimes.len()
        invariant
            i <= mimes.len(),
            o == mime_views(mimes@),
            chosen_mime(o) == first_text(o),
            first_text(o) == first_text(o.skip(i as int)),
        decreases mimes.len() - i,
    {
        assert(o.skip(i as int)[0] == mimes@[i as int]@);
        assert(o.skip(i as int).drop_first() =~= o.skip(i as int + 1));
        if str_starts_with(mimes[i].as_str(), "text/") {
            return Some(mimes[i].clone());
        }
        i += 1;
    }
    None
}

// ─── Names in the interface ───────────────────────────────────────────────────

/// The short name the interface shows for a MIME type.
pub open spec fn friendly_name(m: Seq<char>) -> Seq<char> {
    if m == "text/plain"@ || m == "text/plain;charset=utf-8"@ {
        "Text"@
    } else if m == "text/uri"@ {
        "Link"@
    } else if m == "text/uri-list"@ {
        "Files"@
    } else if m == "text/html"@ {
        "HTML"@
    } else if m == "text/json"@ || m == "application/json"@ {
        "JSON"@
    } else if m == "image/png"@ {
        "PNG"@
    } else if m == "image/jpeg"@ {
        "JPEG"@
    } else if m == "image/webp"@ {
        "WebP"@
    } else {
        m
    }
}

/// The short name of a MIME type, or the type itself when it has none.
pub fn friendly_mime(mime: &str) -> (r: String)
    ensures
        r@ == friendly_name(mime@),
{
    if str_eq(mime, "text/plain") || str_eq(mime, "text/plain;charset=utf-8") {
        string_from("Text")
    } else if str_eq(mime, "text/uri") {
        string_from("Link")
    } else if str_eq(mime, "text/uri-list") {
        string_from("Files")
    } else if str_eq(mime, "text/html") {
        string_from("HTML")
    } else if str_eq(mime, "text/json") || str_eq(mime, "application/json") {
        string_from("JSON")
    } else if str_eq(mime, "image/png") {
        string_from("PNG")
    } else if str_eq(mime, "image/jpeg") {
        string_from("JPEG")
    } else if str_eq(mime, "image/webp") {
        string_from("WebP")
    } else {
        string_from(mime)
    }
}

/// The icon name shown beside an entry of this MIME type.
pub open spec fn icon_name(m: Seq<char>) -> Seq<char> {
    if has_prefix(m, "image/"@) {
        "image-x-generic-symbolic"@
    } else if m == "text/uri-list"@ {
        "folder-symbolic"@
    } else if m == "text/uri"@ {
        "web-browser-symbolic"@
    } else if has_substring(m, "json"@) {
        "text-x-script-symbolic"@
    } else if m == "text/html"@ {
        "text-html-symbolic"@
    } else {
        "edit-copy-symbolic"@
    }
}

/// Chooses the icon for an entry of this MIME type.
pub fn mime_to_icon(mime: &str) -> (r: &'static str)
    ensures
        r@ == icon_name(mime@),
{
    if str_starts_with(mime, "image/") {
        "image-x-generic-symbolic"
    } else if str_eq(mime, "text/uri-list") {
        "folder-symbolic"
    } else if str_eq(mime, "text/uri") {
        "web-browser-symbolic"
    } else if str_contains(mime, "json") {
        "text-x-script-symbolic"
    } else if str_eq(mime, "text/html") {
        "text-html-symbolic"
    } else {
        "edit-copy-symbolic"
    }
}

/// The type under which the daemon re-offers a payload to keep the clipboard
/// alive: text and images only.
pub open spec fn ownership_type(m: Seq<char>) -> Option<Seq<char>> {
    if has_prefix(m, "text/"@) || has_prefix(m, "image/"@) {
        Some(m)
    } else {
        None
    }
}

/// The MIME type to re-offer a payload under, if the daemon takes ownership of it.
pub fn ownership_mime(mime: &str) -> (r: Option<String>)
    ensures
        match r {
            Some(m) => ownership_type(mime@) == Some(m@),
            None => ownership_type(mime@) == None::<Seq<char>>,
        },
{
    if str_starts_with(mime, "text/") || str_starts_with(mime, "image/") {
        Some(string_from(mime))
    } else {
        None
    }
}


/// The first offered entry of a priority list is what `first_offered` finds.
proof fn lemma_first_offered_at(prio: Seq<Seq<char>>, offered: Seq<Seq<char>>, i: int)
    requires
        0 <= i < prio.len(),
        offered.contains(prio[i]),
        forall|j: int| 0 <= j < i ==> !offered.contains(#[trigger] prio[j]),
    ensures
        first_offered(prio, offered) == Some(prio[i]),
    decreases i,
{
    if i > 0 {
        assert(!offered.contains(prio[0]));
        let t = prio.drop_first();
        assert forall|j: int| 0 <= j < i - 1 implies !offered.contains(#[trigger] t[j]) by {
            assert(t[j] == prio[j + 1]);
        }
        lemma_first_offered_at(t, offered, i - 1);
    }
}

/// A priority list none of whose entries is offered finds nothing.
proof fn lemma_first_offered_none(prio: Seq<Seq<char>>, offered: Seq<Seq<char>>)
    requires
        forall|j: int| 0 <= j < prio.len() ==> !offered.contains(#[trigger] prio[j]),
    ensures
        first_offered(prio, offered) is None,
    decreases prio.len(),
{
    if prio.len() > 0 {
        assert(!offered.contains(prio[0]));
        let t = prio.drop_first();
        assert forall|j: int| 0 <= j < t.len() implies !offered.contains(#[trigger] t[j]) by {
            assert(t[j] == prio[j + 1]);
        }
        lemma_first_offered_none(t, offered);
    }
}

/// The monitor takes, of the types on offer, the first in this order: UTF-8
/// plain text, plain text, PNG, JPEG, WebP, HTML, a URI list, JSON (so an
/// image is taken over the HTML that often comes with it); when none of these
/// is offered, the first offered type under `text/`, and nothing otherwise.
pub proof fn law_mime_priority(offered: Seq<Seq<char>>)
    ensures
        ({
            let order = seq![
                "text/plain;charset=utf-8"@, "text/plain"@, "image/png"@, "image/jpeg"@,
                "image/webp"@, "text/html"@, "text/uri-list"@, "application/json"@,
            ];
            &&& forall|i: int| 0 <= i < order.len() && offered.contains(order[i])
                && (forall|j: int| 0 <= j < i ==> !offered.contains(#[trigger] order[j]))
                ==> chosen_mime(offered) == Some(order[i])
            &&& (forall|j: int| 0 <= j < order.len() ==> !offered.contains(#[trigger] order[j]))
                ==> chosen_mime(offered) == first_text(offered)
        }),
{
    let order = seq![
        "text/plain;charset=utf-8"@, "text/plain"@, "image/png"@, "image/jpeg"@,
        "image/webp"@, "text/html"@, "text/uri-list"@, "application/json"@,
    ];
    assert(preferred_mimes() =~= order);
    assert forall|i: int| 0 <= i < order.len() && offered.contains(order[i])
        && (forall|j: int| 0 <= j < i ==> !offered.contains(#[trigger] order[j]))
        implies chosen_mime(offered) == Some(order[i]) by {
        lemma_first_offered_at(order, offered, i);
    }
    if forall|j: int| 0 <= j < order.len() ==> !offered.contains(#[trigger] order[j]) {
        lemma_first_offered_none(order, offered);
    }
}

/// An image offered together with HTML is taken as the image, when no plain
/// text is offered: PNG before JPEG before WebP before HTML.
pub proof fn law_image_over_html(offered: Seq<Seq<char>>)
    requires
        offered.contains("text/html"@),
        !offered.contains("text/plain;charset=utf-8"@),
        !offered.contains("text/plain"@),
        offered.contains("image/png"@) || offered.contains("image/jpeg"@) || offered.contains("image/webp"@),
    ensures
        chosen_mime(offered) == Some(if offered.contains("image/png"@) {
            "image/png"@
        } else if offered.contains("image/jpeg"@) {
            "image/jpeg"@
        } else {
            "image/webp"@
        }),
{
    law_mime_priority(offered);
    let order = seq![
        "text/plain;charset=utf-8"@, "text/plain"@, "image/png"@, "image/jpeg"@,
        "image/webp"@, "text/html"@, "text/uri-list"@, "application/json"@,
    ];
    if offered.contains("image/png"@) {
        assert(order[2] == "image/png"@);
        assert forall|j: int| 0 <= j < 2 implies !offered.contains(#[trigger] order[j]) by {}
    } else if offered.contains("image/jpeg"@) {
        assert(order[3] == "image/jpeg"@);
        assert forall|j: int| 0 <= j < 3 implies !offered.contains(#[trigger] order[j]) by {}
    } else {
        assert(order[4] == "image/webp"@);
        assert forall|j: int| 0 <= j < 4 implies !offered.contains(#[trigger] order[j]) by {}
    }
}

} // verus!
