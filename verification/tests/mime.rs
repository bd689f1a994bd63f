use clypse::mime::{classify_mime, friendly_mime, is_text_mime, mime_to_icon, ownership_mime, refine_text_mime, select_mime};

#[test]
fn classify_mime_categories() {
    assert_eq!(classify_mime("image/png"), "image");
    assert_eq!(classify_mime("text/uri-list"), "files");
    assert_eq!(classify_mime("text/html"), "html");
    assert_eq!(classify_mime("text/plain"), "text");
    assert_eq!(classify_mime("application/pdf"), "binary");
}

#[test]
fn refine_text_mime_by_content() {
    assert_eq!(refine_text_mime("http://a"), "text/uri");
    assert_eq!(refine_text_mime("  https://a  "), "text/uri");
    assert_eq!(refine_text_mime("ftp://host"), "text/uri");
    assert_eq!(refine_text_mime("{\"k\": 1}"), "text/json");
    assert_eq!(refine_text_mime("[1, 2]"), "text/json");
    assert_eq!(refine_text_mime("<b>x</b>"), "text/html");
    assert_eq!(refine_text_mime("<br/>"), "text/html");
    assert_eq!(refine_text_mime("<not html"), "text/plain");
    assert_eq!(refine_text_mime("plain words"), "text/plain");
    assert_eq!(refine_text_mime(""), "text/plain");
}

#[test]
fn text_mime_types() {
    assert!(is_text_mime("text/anything"));
    assert!(is_text_mime("application/json"));
    assert!(is_text_mime("application/xml"));
    assert!(!is_text_mime("image/png"));
    assert!(!is_text_mime("application/octet-stream"));
}

#[test]
fn mime_selection_prefers_the_priority_list() {
    let offered = |v: &[&str]| v.iter().map(|s| s.to_string()).collect::<Vec<_>>();
    assert_eq!(select_mime(&offered(&["image/png", "text/plain"])), Some("text/plain".into()));
    assert_eq!(
        select_mime(&offered(&["text/plain", "text/plain;charset=utf-8"])),
        Some("text/plain;charset=utf-8".into())
    );
    assert_eq!(select_mime(&offered(&["image/webp", "image/jpeg"])), Some("image/jpeg".into()));
    assert_eq!(select_mime(&offered(&["x-special", "text/rtf", "text/x-c"])), Some("text/rtf".into()));
    assert_eq!(select_mime(&offered(&["x-special", "image/gif"])), None);
    assert_eq!(select_mime(&offered(&[])), None);
}

#[test]
fn friendly_names_and_icons() {
    assert_eq!(friendly_mime("text/plain;charset=utf-8"), "Text");
    assert_eq!(friendly_mime("text/uri"), "Link");
    assert_eq!(friendly_mime("text/uri-list"), "Files");
    assert_eq!(friendly_mime("application/json"), "JSON");
    assert_eq!(friendly_mime("image/webp"), "WebP");
    assert_eq!(friendly_mime("image/gif"), "image/gif");
    assert_eq!(mime_to_icon("image/gif"), "image-x-generic-symbolic");
    assert_eq!(mime_to_icon("text/uri-list"), "folder-symbolic");
    assert_eq!(mime_to_icon("text/uri"), "web-browser-symbolic");
    assert_eq!(mime_to_icon("text/json"), "text-x-script-symbolic");
    assert_eq!(mime_to_icon("text/html"), "text-html-symbolic");
    assert_eq!(mime_to_icon("text/plain"), "edit-copy-symbolic");
}

#[test]
fn ownership_covers_text_and_images() {
    assert_eq!(ownership_mime("text/plain"), Some("text/plain".into()));
    assert_eq!(ownership_mime("image/png"), Some("image/png".into()));
    assert_eq!(ownership_mime("application/json"), None);
}
