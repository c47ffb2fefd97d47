use scut_notices::attach::{href_is_attachment, resolve_anchor, resolve_attachments, AnchorInfo};

fn anchor(href: &str, title: Option<&str>, text: Option<&str>) -> AnchorInfo {
    AnchorInfo {
        href: href.to_string(),
        title: title.map(str::to_string),
        text: text.map(str::to_string),
    }
}

#[test]
fn relative_href_resolves_against_site_origin() {
    let a = anchor("/upload/file/report.pdf", None, Some("Report"));
    let att = resolve_anchor(&a).expect("attachment expected");
    assert_eq!(att.name, "Report");
    assert_eq!(att.url, "https://jw.scut.edu.cn/upload/file/report.pdf");
}

#[test]
fn absolute_href_is_kept() {
    let a = anchor(
        "https://example.com/upload/file/a.pdf",
        Some("A file"),
        None,
    );
    let att = resolve_anchor(&a).expect("attachment expected");
    assert_eq!(att.name, "A file");
    assert_eq!(att.url, "https://example.com/upload/file/a.pdf");
}

#[test]
fn title_attribute_wins_over_text() {
    let a = anchor("/upload/file/a.pdf", Some("From title"), Some("From text"));
    let att = resolve_anchor(&a).expect("attachment expected");
    assert_eq!(att.name, "From title");
}

#[test]
fn missing_title_and_text_gets_placeholder_name() {
    let a = anchor("/upload/file/a.pdf", None, None);
    let att = resolve_anchor(&a).expect("attachment expected");
    assert_eq!(att.name, "Unnamed attachment");
}

#[test]
fn non_attachment_href_is_ignored() {
    let a = anchor("/zhinan/cms/toPosts.do", Some("nope"), None);
    assert!(resolve_anchor(&a).is_none());
    assert!(!href_is_attachment("/zhinan/cms/toPosts.do"));
    assert!(href_is_attachment("/upload/file/x"));
    assert!(href_is_attachment("static/upload/file/x"));
}

#[test]
fn bare_static_path_joins_onto_origin_text() {
    let a = anchor("static/upload/file/b.doc", None, Some("B"));
    let att = resolve_anchor(&a).expect("attachment expected");
    assert_eq!(att.url, "https://jw.scut.edu.cnstatic/upload/file/b.doc");
}

#[test]
fn unparsable_href_is_dropped_silently() {
    let a = anchor(":bad/upload/file/a.pdf", None, Some("x"));
    assert!(resolve_anchor(&a).is_none());
}

#[test]
fn anchors_resolve_in_document_order() {
    let anchors = vec![
        anchor("/upload/file/one.pdf", None, Some("One")),
        anchor("/elsewhere/two.pdf", None, Some("Two")),
        anchor("/upload/file/three.pdf", Some("Three"), None),
    ];
    let atts = resolve_attachments(&anchors);
    assert_eq!(atts.len(), 2);
    assert_eq!(atts[0].name, "One");
    assert_eq!(atts[0].url, "https://jw.scut.edu.cn/upload/file/one.pdf");
    assert_eq!(atts[1].name, "Three");
    assert_eq!(atts[1].url, "https://jw.scut.edu.cn/upload/file/three.pdf");
}
