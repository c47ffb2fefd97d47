//! The crawl loop's decisions: when pagination stops, and which of a page's
//! records a crawl keeps.  The caller fetches one page at a time and applies
//! it here; an exhaustive crawl keeps every record, a date-bounded crawl keeps
//! the page's leading run of records dated strictly after the cutoff.

use vstd::prelude::*;
use crate::date::{NoticeDate, date_after, date_le, parse_date_spec, sentinel_date};
use crate::date::parse_notice_date;
use crate::metadata::{FindInformNotice, NoticeMetadata};

verus! {

/// The records a page carries; an absent list carries none.
pub open spec fn page_records(list: Option<Vec<NoticeMetadata>>) -> Seq<NoticeMetadata> {
    match list {
        Option::Some(l) => l@,
        Option::None => Seq::empty(),
    }
}

/// Pagination stops once the pages seen so far cover `total`.
pub open spec fn last_page(total: u32, page_num: u32, page_size: u32) -> bool {
    total <= page_num * page_size
}

/// Whether the page just fetched is the crawl's last.
pub fn is_last_page(total: u32, page_num: u32, page_size: u32) -> (r: bool)
    ensures
        r == last_page(total, page_num, page_size),
{
    proof {
        assert((page_num as u64) * (page_size as u64) == (page_num * page_size) as u64
            && (page_num as u64) * (page_size as u64) <= u64::MAX) by (nonlinear_arith);
    }
    (total as u64) <= (page_num as u64) * (page_size as u64)
}

/// The leading run of records dated strictly after `cutoff`; the first record
/// at or before it (sentinel included) ends the page's scan.
pub open spec fn taken_records(rs: Seq<NoticeMetadata>, cutoff: NoticeDate) -> Seq<NoticeMetadata>
    decreases rs.len(),
{
    if rs.len() == 0 {
        Seq::empty()
    } else if date_after(parse_date_spec(rs[0].createTime@), cutoff) {
        seq![rs[0]] + taken_records(rs.drop_first(), cutoff)
    } else {
        Seq::empty()
    }
}

/// Applies one fetched page to an exhaustive crawl: every record is kept, and
/// the result says whether pagination is done.
pub fn apply_page_all(
    acc: &mut Vec<NoticeMetadata>,
    page: FindInformNotice,
    page_num: u32,
    page_size: u32,
) -> (done: bool)
    ensures
        final(acc)@ == old(acc)@ + page_records(page.list),
        done == last_page(page.total, page_num, page_size),
{
    match page.list {
        Some(mut l) => {
            acc.append(&mut l);
        },
        None => {
            proof {
                assert(acc@ =~= acc@ + Seq::<NoticeMetadata>::empty());
            }
        },
    }
    is_last_page(page.total, page_num, page_size)
}

/// Applies one fetched page to a date-bounded crawl: the page's leading run
/// of records dated strictly after `cutoff` is kept, and the result says
/// whether pagination is done.
pub fn apply_page_after_date(
    acc: &mut Vec<NoticeMetadata>,
    page: FindInformNotice,
    cutoff: &NoticeDate,
    page_num: u32,
    page_size: u32,
) -> (done: bool)
    ensures
        final(acc)@ == old(acc)@ + taken_records(page_records(page.list), *cutoff),
        done == last_page(page.total, page_num, page_size),
{
    match page.list {
        Some(mut l) => {
            let ghost orig = l@;
            let ghost base = acc@;
            loop
                invariant_except_break
                    l@.len() <= orig.len(),
                    acc@ == base + orig.take(orig.len() - l@.len()),
                    l@ =~= orig.skip(orig.len() - l@.len()),
                    taken_records(orig, *cutoff) == orig.take(orig.len() - l@.len())
                        + taken_records(l@, *cutoff),
                ensures
                    acc@ == base + taken_records(orig, *cutoff),
                decreases l@.len(),
            {
                let ghost k = orig.len() - l@.len();
                if l.len() == 0 {
                    proof {
                        assert(taken_records(l@, *cutoff) =~= Seq::<NoticeMetadata>::empty());
                        assert(orig.take(orig.len() as int) =~= orig);
                    }
                    break;
                }
                let rec = l.remove(0);
                let d = parse_notice_date(rec.createTime.as_str());
                proof {
                    assert(rec == orig[k]);
                }
                if d.is_after(cutoff) {
                    acc.push(rec);
                    proof {
                        assert(orig.take(k + 1) =~= orig.take(k).push(orig[k]));
                        assert(l@ =~= orig.skip(k + 1));
                        assert(taken_records(orig.skip(k), *cutoff) =~= seq![orig[k]]
                            + taken_records(orig.skip(k).drop_first(), *cutoff));
                        assert(orig.skip(k).drop_first() =~= orig.skip(k + 1));
                    }
                } else {
                    proof {
                        assert(taken_records(orig.skip(k), *cutoff)
                            =~= Seq::<NoticeMetadata>::empty());
                    }
                    break;
                }
            }
        },
        None => {
            proof {
                assert(acc@ =~= acc@ + Seq::<NoticeMetadata>::empty());
            }
        },
    }
    is_last_page(page.total, page_num, page_size)
}

/// A valid envelope whose `list` is absent contributes no records to either
/// crawl, and pagination still goes on by `total` alone.
pub proof fn lemma_absent_list_yields_no_records(page: FindInformNotice, cutoff: NoticeDate)
    requires
        page.list is None,
    ensures
        page_records(page.list) =~= Seq::<NoticeMetadata>::empty(),
        taken_records(page_records(page.list), cutoff) =~= Seq::<NoticeMetadata>::empty(),
{
}

/// A record whose `createTime` does not parse falls back to the sentinel
/// date, so a date-bounded crawl with any cutoff at or after the sentinel
/// never keeps it: the page's kept run ends at or before that record.
pub proof fn lemma_malformed_date_excluded(
    rs: Seq<NoticeMetadata>,
    i: int,
    cutoff: NoticeDate,
)
    requires
        0 <= i < rs.len(),
        parse_date_spec(rs[i].createTime@) == sentinel_date(),
        date_le(sentinel_date(), cutoff),
    ensures
        taken_records(rs, cutoff).len() <= i,
    decreases i,
{
    if rs.len() == 0 {
    } else if date_after(parse_date_spec(rs[0].createTime@), cutoff) {
        if i == 0 {
            assert(false);
        } else {
            lemma_malformed_date_excluded(rs.drop_first(), i - 1, cutoff);
        }
    }
}

} // verus!
