//! The content extractor: turns a notice's content container, mapped to
//! semantic roles (title marker, date marker, paragraphs, headings), into one
//! clean text.  Title and date come first in that fixed order, each block is
//! followed by a blank line, empty blocks are skipped, paragraphs precede
//! headings, and headings already identified as the title or date markers are
//! skipped to avoid duplication.

use vstd::prelude::*;
use crate::text::{spec_trim, trim_str};

verus! {

/// One heading of any level inside the content container; `is_marker` says it
/// was already identified as the title or date marker.
#[derive(Debug)]
pub struct Heading {
    pub text: String,
    pub is_marker: bool,
}

/// A content container mapped to semantic roles, in document order within
/// each role.
#[derive(Debug)]
pub struct ContentBlocks {
    pub title: Option<String>,
    pub date: Option<String>,
    pub paragraphs: Vec<String>,
    pub headings: Vec<Heading>,
}

/// The mathematical shape of a content container.
pub ghost struct ContentView {
    pub title: Option<Seq<char>>,
    pub date: Option<Seq<char>>,
    pub paragraphs: Seq<Seq<char>>,
    pub headings: Seq<(Seq<char>, bool)>,
}

impl View for ContentBlocks {
    type V = ContentView;

    open spec fn view(&self) -> ContentView {
        ContentView {
            title: match self.title {
                Option::Some(t) => Option::Some(t@),
                Option::None => Option::None,
            },
            date: match self.date {
                Option::Some(t) => Option::Some(t@),
                Option::None => Option::None,
            },
            paragraphs: self.paragraphs@.map_values(|s: String| s@),
            headings: self.headings@.map_values(|h: Heading| (h.text@, h.is_marker)),
        }
    }
}

/// The blank line that follows every emitted block.
pub open spec fn nl2() -> Seq<char> {
    seq!['\n', '\n']
}

pub open spec fn opt_block(o: Option<Seq<char>>) -> Seq<Seq<char>> {
    match o {
        Option::Some(t) => seq![t],
        Option::None => Seq::empty(),
    }
}

/// A paragraph's contribution: its trimmed text, or nothing when that is
/// empty.
pub open spec fn body_block(t: Seq<char>) -> Seq<Seq<char>> {
    if spec_trim(t).len() == 0 {
        Seq::empty()
    } else {
        seq![spec_trim(t)]
    }
}

pub open spec fn para_blocks(ps: Seq<Seq<char>>) -> Seq<Seq<char>>
    decreases ps.len(),
{
    if ps.len() == 0 {
        Seq::empty()
    } else {
        body_block(ps[0]) + para_blocks(ps.drop_first())
    }
}

/// Headings contribute like paragraphs, except marker headings are skipped.
pub open spec fn heading_blocks(hs: Seq<(Seq<char>, bool)>) -> Seq<Seq<char>>
    decreases hs.len(),
{
    if hs.len() == 0 {
        Seq::empty()
    } else if hs[0].1 {
        heading_blocks(hs.drop_first())
    } else {
        body_block(hs[0].0) + heading_blocks(hs.drop_first())
    }
}

/// All emitted blocks in order: title, date, paragraphs, then headings.
pub open spec fn emitted_blocks(c: ContentView) -> Seq<Seq<char>> {
    opt_block(c.title) + opt_block(c.date) + para_blocks(c.paragraphs) + heading_blocks(c.headings)
}

pub open spec fn concat_blocks(bs: Seq<Seq<char>>) -> Seq<char>
    decreases bs.len(),
{
    if bs.len() == 0 {
        Seq::empty()
    } else {
        bs[0] + nl2() + concat_blocks(bs.drop_first())
    }
}

/// What extraction returns: every emitted block followed by a blank line,
/// concatenated, then trimmed.
pub open spec fn extract_spec(c: ContentView) -> Seq<char> {
    spec_trim(concat_blocks(emitted_blocks(c)))
}

proof fn lemma_concat_blocks_push(bs: Seq<Seq<char>>, b: Seq<char>)
    ensures
        concat_blocks(bs.push(b)) == concat_blocks(bs) + b + nl2(),
    decreases bs.len(),
{
    assert(bs.push(b)[0] == if bs.len() == 0 { b } else { bs[0] });
    if bs.len() == 0 {
        assert(bs.push(b).drop_first() =~= Seq::<Seq<char>>::empty());
        assert(concat_blocks(bs.push(b).drop_first()) =~= Seq::<char>::empty());
        assert(concat_blocks(bs) =~= Seq::<char>::empty());
        assert(concat_blocks(bs.push(b)) =~= concat_blocks(bs) + b + nl2());
    } else {
        assert(bs.push(b).drop_first() =~= bs.drop_first().push(b));
        lemma_concat_blocks_push(bs.drop_first(), b);
        assert(concat_blocks(bs.push(b)) =~= concat_blocks(bs) + b + nl2());
    }
}

proof fn lemma_para_blocks_take(ps: Seq<Seq<char>>, k: int)
    requires
        0 <= k < ps.len(),
    ensures
        para_blocks(ps.take(k + 1)) == para_blocks(ps.take(k)) + body_block(ps[k]),
    decreases k,
{
    if k == 0 {
        assert(ps.take(0) =~= Seq::<Seq<char>>::empty());
        assert(ps.take(1).drop_first() =~= Seq::<Seq<char>>::empty());
        assert(para_blocks(ps.take(1)) =~= para_blocks(ps.take(0)) + body_block(ps[0]));
    } else {
        lemma_para_blocks_take(ps.drop_first(), k - 1);
        assert(ps.take(k + 1).drop_first() =~= ps.drop_first().take(k));
        assert(ps.take(k).drop_first() =~= ps.drop_first().take(k - 1));
        assert(para_blocks(ps.take(k + 1)) =~= para_blocks(ps.take(k)) + body_block(ps[k]));
    }
}

proof fn lemma_heading_blocks_take(hs: Seq<(Seq<char>, bool)>, k: int)
    requires
        0 <= k < hs.len(),
    ensures
        heading_blocks(hs.take(k + 1)) == heading_blocks(hs.take(k)) + (if hs[k].1 {
            Seq::<Seq<char>>::empty()
        } else {
            body_block(hs[k].0)
        }),
    decreases k,
{
    if k == 0 {
        assert(hs.take(0) =~= Seq::<(Seq<char>, bool)>::empty());
        assert(hs.take(1).drop_first() =~= Seq::<(Seq<char>, bool)>::empty());
        assert(heading_blocks(hs.take(1)) =~= heading_blocks(hs.take(0)) + (if hs[0].1 {
            Seq::<Seq<char>>::empty()
        } else {
            body_block(hs[0].0)
        }));
    } else {
        lemma_heading_blocks_take(hs.drop_first(), k - 1);
        assert(hs.take(k + 1).drop_first() =~= hs.drop_first().take(k));
        assert(hs.take(k).drop_first() =~= hs.drop_first().take(k - 1));
        assert(heading_blocks(hs.take(k + 1)) =~= heading_blocks(hs.take(k)) + (if hs[k].1 {
            Seq::<Seq<char>>::empty()
        } else {
            body_block(hs[k].0)
        }));
    }
}

/// Runs the extraction over a role-mapped content container.
pub fn extract_clean_content(c: &ContentBlocks) -> (r: String)
    ensures
        r@ == extract_spec(c@),
{
    proof {
        reveal_strlit("\n\n");
        assert("\n\n"@ =~= nl2());
    }
    let mut out = String::new();
    let ghost mut blocks: Seq<Seq<char>> = Seq::empty();
    proof {
        assert(out@ =~= concat_blocks(blocks));
    }
    if let Some(t) = &c.title {
        out.append(t.as_str());
        out.append("\n\n");
        proof {
            lemma_concat_blocks_push(blocks, t@);
            blocks = blocks.push(t@);
        }
    }
    if let Some(d) = &c.date {
        out.append(d.as_str());
        out.append("\n\n");
        proof {
            lemma_concat_blocks_push(blocks, d@);
            blocks = blocks.push(d@);
        }
    }
    proof {
        assert(blocks =~= opt_block(c@.title) + opt_block(c@.date));
    }
    let ghost head: Seq<Seq<char>> = blocks;
    let mut i: usize = 0;
    while i < c.paragraphs.len()
        invariant
            0 <= i <= c.paragraphs.len(),
            blocks == head + para_blocks(c@.paragraphs.take(i as int)),
            out@ == concat_blocks(blocks),
        decreases c.paragraphs.len() - i,
    {
        let tr = trim_str(c.paragraphs[i].as_str());
        proof {
            reveal_strlit("\n\n");
            assert("\n\n"@ =~= nl2());
            assert(c@.paragraphs[i as int] == c.paragraphs@[i as int]@);
        }
        if !tr.as_str().is_empty() {
            out.append(tr.as_str());
            out.append("\n\n");
            proof {
                lemma_concat_blocks_push(blocks, tr@);
                blocks = blocks.push(tr@);
            }
        }
        proof {
            lemma_para_blocks_take(c@.paragraphs, i as int);
            assert(blocks =~= head + para_blocks(c@.paragraphs.take(i + 1)));
        }
        i = i + 1;
    }
    proof {
        assert(c@.paragraphs.take(c.paragraphs@.len() as int) =~= c@.paragraphs);
    }
    let ghost mid: Seq<Seq<char>> = blocks;
    let mut j: usize = 0;
    while j < c.headings.len()
        invariant
            0 <= j <= c.headings.len(),
            blocks == mid + heading_blocks(c@.headings.take(j as int)),
            out@ == concat_blocks(blocks),
        decreases c.headings.len() - j,
    {
        proof {
            reveal_strlit("\n\n");
            assert("\n\n"@ =~= nl2());
            assert(c@.headings[j as int] == (c.headings@[j as int].text@,
                c.headings@[j as int].is_marker));
        }
        if !c.headings[j].is_marker {
            let tr = trim_str(c.headings[j].text.as_str());
            if !tr.as_str().is_empty() {
                out.append(tr.as_str());
                out.append("\n\n");
                proof {
                    lemma_concat_blocks_push(blocks, tr@);
                    blocks = blocks.push(tr@);
                }
            }
        }
        proof {
            lemma_heading_blocks_take(c@.headings, j as int);
            assert(blocks =~= mid + heading_blocks(c@.headings.take(j + 1)));
        }
        j = j + 1;
    }
    proof {
        assert(c@.headings.take(c.headings@.len() as int) =~= c@.headings);
        assert(blocks =~= emitted_blocks(c@));
    }
    trim_str(out.as_str())
}

/// Extraction is deterministic: containers with the same structured content
/// yield the same text, however often it is re-run.
pub proof fn lemma_extract_deterministic(a: &ContentBlocks, b: &ContentBlocks)
    requires
        a@ == b@,
    ensures
        extract_spec(a@) == extract_spec(b@),
{
}

} // verus!
