//! Assembly of one notice's detail: the detail page URL, and the detail
//! record built from a fetched page's content container — or from its
//! absence, which is a recoverable condition yielding a fixed placeholder.

use vstd::prelude::*;
use crate::attach::{AnchorInfo, AnchorView, Attachment, resolve_attachments, resolved_list};
use crate::extract::{ContentBlocks, extract_clean_content, extract_spec};
use crate::metadata::NoticeMetadata;

verus! {

/// A fetched detail page's content container, mapped to plain values, or
/// nothing when the page has no such container.
#[derive(Debug)]
pub struct DetailPage {
    pub container: Option<DetailContainer>,
}

/// The content container: its role-mapped text blocks and its anchors in
/// document order.
#[derive(Debug)]
pub struct DetailContainer {
    pub blocks: ContentBlocks,
    pub anchors: Vec<AnchorInfo>,
}

/// One notice's full detail: the summary it was fetched for, the extracted
/// text, and the resolved attachments.
#[derive(Debug)]
pub struct NoticeDetail {
    pub metadata: NoticeMetadata,
    pub content: String,
    pub attachments: Vec<Attachment>,
}

/// The fixed placeholder reported when the content container is absent.
pub open spec fn content_not_found() -> Seq<char> {
    "Content not found"@
}

/// The detail page URL for a notice id.
pub open spec fn detail_url_spec(id: Seq<char>) -> Seq<char> {
    "https://jw.scut.edu.cn/zhinan/cms/article/view.do?type=posts&id="@ + id
}

/// Builds the detail page URL for a notice id.
pub fn detail_url(id: &str) -> (r: String)
    ensures
        r@ == detail_url_spec(id@),
{
    let mut u = String::from_str("https://jw.scut.edu.cn/zhinan/cms/article/view.do?type=posts&id=");
    u.append(id);
    u
}

/// Builds a notice's detail from its summary and a fetched page.  An absent
/// container is not an error: the content is the fixed placeholder and no
/// attachment is reported.
pub fn build_notice_detail(metadata: NoticeMetadata, page: DetailPage) -> (r: NoticeDetail)
    ensures
        r.metadata == metadata,
        page.container is None ==> r.content@ == content_not_found() && r.attachments@
            =~= Seq::<Attachment>::empty(),
        page.container matches Some(cont) ==> r.content@ == extract_spec(cont.blocks@)
            && r.attachments@.map_values(|att: Attachment| att@) == resolved_list(
            cont.anchors@.map_values(|a: AnchorInfo| a@),
        ),
{
    match page.container {
        Some(cont) => {
            let content = extract_clean_content(&cont.blocks);
            let attachments = resolve_attachments(&cont.anchors);
            NoticeDetail { metadata, content, attachments }
        },
        None => NoticeDetail {
            metadata,
            content: String::from_str("Content not found"),
            attachments: Vec::new(),
        },
    }
}

} // verus!
