use scut_notices::attach::AnchorInfo;
use scut_notices::detail::{build_notice_detail, detail_url, DetailContainer, DetailPage};
use scut_notices::extract::{ContentBlocks, Heading};
use scut_notices::metadata::NoticeMetadata;

fn meta(id: &str) -> NoticeMetadata {
    NoticeMetadata {
        id: id.to_string(),
        title: "t".to_string(),
        createTime: "2024.03.15".to_string(),
        label: Some("label".to_string()),
        isLastest: Some(false),
    }
}

#[test]
fn detail_url_interpolates_the_notice_id() {
    assert_eq!(
        detail_url("abc123"),
        "https://jw.scut.edu.cn/zhinan/cms/article/view.do?type=posts&id=abc123"
    );
}

#[test]
fn absent_container_yields_placeholder_not_error() {
    let d = build_notice_detail(meta("1"), DetailPage { container: None });
    assert_eq!(d.content, "Content not found");
    assert!(d.attachments.is_empty());
    assert_eq!(d.metadata.id, "1");
}

#[test]
fn present_container_yields_text_and_attachments() {
    let page = DetailPage {
        container: Some(DetailContainer {
            blocks: ContentBlocks {
                title: Some("A Title".to_string()),
                date: Some("2024.03.15".to_string()),
                paragraphs: vec!["Body.".to_string()],
                headings: vec![Heading { text: "A Title".to_string(), is_marker: true }],
            },
            anchors: vec![AnchorInfo {
                href: "/upload/file/report.pdf".to_string(),
                title: None,
                text: Some("Report".to_string()),
            }],
        }),
    };
    let d = build_notice_detail(meta("9"), page);
    assert_eq!(d.content, "A Title\n\n2024.03.15\n\nBody.");
    assert_eq!(d.attachments.len(), 1);
    assert_eq!(d.attachments[0].name, "Report");
    assert_eq!(
        d.attachments[0].url,
        "https://jw.scut.edu.cn/upload/file/report.pdf"
    );
    assert_eq!(d.metadata.id, "9");
}
