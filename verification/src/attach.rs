//! The attachment resolver: anchors inside the content container whose target
//! names a known attachment path become attachments with an absolute URL.  A
//! target that is not already absolute is retried with the site origin
//! prepended; one that still does not parse is dropped silently.  The display
//! name falls back from the anchor's title attribute to its first text node
//! to a fixed placeholder.

use vstd::prelude::*;
use crate::text::{contains_str, has_substring};

verus! {

/// One anchor with an `href`, as found inside the content container:
/// its target, its title attribute, and its first text node.
#[derive(Debug)]
pub struct AnchorInfo {
    pub href: String,
    pub title: Option<String>,
    pub text: Option<String>,
}

/// A resolved attachment: display name and absolute URL.
#[derive(Debug)]
pub struct Attachment {
    pub name: String,
    pub url: String,
}

/// The mathematical shape of an anchor.
pub ghost struct AnchorView {
    pub href: Seq<char>,
    pub title: Option<Seq<char>>,
    pub text: Option<Seq<char>>,
}

impl View for AnchorInfo {
    type V = AnchorView;

    open spec fn view(&self) -> AnchorView {
        AnchorView {
            href: self.href@,
            title: match self.title {
                Option::Some(t) => Option::Some(t@),
                Option::None => Option::None,
            },
            text: match self.text {
                Option::Some(t) => Option::Some(t@),
                Option::None => Option::None,
            },
        }
    }
}

impl View for Attachment {
    type V = (Seq<char>, Seq<char>);

    open spec fn view(&self) -> (Seq<char>, Seq<char>) {
        (self.name@, self.url@)
    }
}

/// An `href` qualifies as an attachment link when it names a known
/// attachment path.
pub open spec fn is_attachment_href(h: Seq<char>) -> bool {
    has_substring(h, "/upload/file/"@) || has_substring(h, "static/upload/file/"@)
}

/// Whether an `href` qualifies as an attachment link.
pub fn href_is_attachment(h: &str) -> (r: bool)
    ensures
        r == is_attachment_href(h@),
{
    contains_str(h, "/upload/file/") || contains_str(h, "static/upload/file/")
}

/// The site origin prepended to path-relative attachment links.
pub open spec fn site_origin() -> Seq<char> {
    "https://jw.scut.edu.cn"@
}

/// Whether a string parses as an absolute URL.  A function of the string
/// alone; what the url crate's grammar accepts is not restated here.
pub uninterp spec fn url_parse_ok(s: Seq<char>) -> bool;

/// The serialization of the URL a string parses to, for strings that parse.
pub uninterp spec fn url_serialization(s: Seq<char>) -> Seq<char>;

/// Relies on url::Url::parse and url::Url::as_str: whether a string parses
/// as an absolute URL, and the serialization of the URL it parses to, are
/// both functions of the string alone.
#[verifier::external_body]
fn parse_absolute_url(s: &str) -> (r: Option<String>)
    ensures
        r is Some <==> url_parse_ok(s@),
        r is Some ==> r->0@ == url_serialization(s@),
{
    match url::Url::parse(s) {
        Ok(u) => Some(u.as_str().to_string()),
        Err(_) => None,
    }
}

/// An anchor's display name: title attribute, else first text node, else the
/// fixed placeholder.
pub open spec fn anchor_name(a: AnchorView) -> Seq<char> {
    match a.title {
        Option::Some(t) => t,
        Option::None => match a.text {
            Option::Some(t) => t,
            Option::None => "Unnamed attachment"@,
        },
    }
}

/// What one anchor resolves to: nothing unless its target names an
/// attachment path; the target's own URL when it is absolute; the target
/// joined to the site origin otherwise; nothing when neither parses.
pub open spec fn resolved_anchor(a: AnchorView) -> Option<(Seq<char>, Seq<char>)> {
    if !is_attachment_href(a.href) {
        Option::None
    } else if url_parse_ok(a.href) {
        Option::Some((anchor_name(a), url_serialization(a.href)))
    } else if url_parse_ok(site_origin() + a.href) {
        Option::Some((anchor_name(a), url_serialization(site_origin() + a.href)))
    } else {
        Option::None
    }
}

/// The attachments of a run of anchors, in document order.
pub open spec fn resolved_list(anchors: Seq<AnchorView>) -> Seq<(Seq<char>, Seq<char>)>
    decreases anchors.len(),
{
    if anchors.len() == 0 {
        Seq::empty()
    } else {
        (match resolved_anchor(anchors[0]) {
            Option::Some(p) => seq![p],
            Option::None => Seq::empty(),
        }) + resolved_list(anchors.drop_first())
    }
}

fn anchor_display_name(a: &AnchorInfo) -> (r: String)
    ensures
        r@ == anchor_name(a@),
{
    match &a.title {
        Some(t) => t.clone(),
        None => match &a.text {
            Some(t) => t.clone(),
            None => String::from_str("Unnamed attachment"),
        },
    }
}

/// Resolves one anchor, or drops it.
pub fn resolve_anchor(a: &AnchorInfo) -> (r: Option<Attachment>)
    ensures
        match r {
            Option::Some(att) => resolved_anchor(a@) == Option::Some(att@),
            Option::None => resolved_anchor(a@) is None,
        },
{
    if !href_is_attachment(a.href.as_str()) {
        return None;
    }
    let url_s: String = match parse_absolute_url(a.href.as_str()) {
        Some(u) => u,
        None => {
            let mut joined = String::from_str("https://jw.scut.edu.cn");
            joined.append(a.href.as_str());
            match parse_absolute_url(joined.as_str()) {
                Some(u) => u,
                None => {
                    return None;
                },
            }
        },
    };
    let name = anchor_display_name(a);
    Some(Attachment { name, url: url_s })
}

proof fn lemma_resolved_list_take(s: Seq<AnchorView>, k: int)
    requires
        0 <= k < s.len(),
    ensures
        resolved_list(s.take(k + 1)) == resolved_list(s.take(k)) + (match resolved_anchor(s[k]) {
            Option::Some(p) => seq![p],
            Option::None => Seq::<(Seq<char>, Seq<char>)>::empty(),
        }),
    decreases k,
{
    if k == 0 {
        assert(s.take(0) =~= Seq::<AnchorView>::empty());
        assert(s.take(1).drop_first() =~= Seq::<AnchorView>::empty());
        assert(resolved_list(s.take(1)) =~= resolved_list(s.take(0)) + (match resolved_anchor(
            s[0],
        ) {
            Option::Some(p) => seq![p],
            Option::None => Seq::<(Seq<char>, Seq<char>)>::empty(),
        }));
    } else {
        lemma_resolved_list_take(s.drop_first(), k - 1);
        assert(s.take(k + 1).drop_first() =~= s.drop_first().take(k));
        assert(s.take(k).drop_first() =~= s.drop_first().take(k - 1));
        assert(resolved_list(s.take(k + 1)) =~= resolved_list(s.take(k)) + (match resolved_anchor(
            s[k],
        ) {
            Option::Some(p) => seq![p],
            Option::None => Seq::<(Seq<char>, Seq<char>)>::empty(),
        }));
    }
}

/// Resolves every qualifying anchor of the content container, in document
/// order.
pub fn resolve_attachments(anchors: &Vec<AnchorInfo>) -> (r: Vec<Attachment>)
    ensures
        r@.map_values(|att: Attachment| att@) == resolved_list(
            anchors@.map_values(|a: AnchorInfo| a@),
        ),
{
    let ghost av = anchors@.map_values(|a: AnchorInfo| a@);
    let mut r: Vec<Attachment> = Vec::new();
    proof {
        assert(r@.map_values(|att: Attachment| att@) =~= resolved_list(av.take(0)));
    }
    let mut i: usize = 0;
    while i < anchors.len()
        invariant
            0 <= i <= anchors.len(),
            av == anchors@.map_values(|a: AnchorInfo| a@),
            r@.map_values(|att: Attachment| att@) == resolved_list(av.take(i as int)),
        decreases anchors.len() - i,
    {
        proof {
            assert(av[i as int] == anchors@[i as int]@);
        }
        match resolve_anchor(&anchors[i]) {
            Some(att) => {
                let ghost prev = r@;
                r.push(att);
                proof {
                    assert(r@.map_values(|att: Attachment| att@) =~= prev.map_values(
                        |att: Attachment| att@,
                    ).push(att@));
                }
            },
            None => {},
        }
        proof {
            lemma_resolved_list_take(av, i as int);
            assert(r@.map_values(|att: Attachment| att@) =~= resolved_list(av.take(i + 1)));
        }
        i = i + 1;
    }
    proof {
        assert(av.take(anchors@.len() as int) =~= av);
    }
    r
}

} // verus!
