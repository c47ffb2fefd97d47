//! The listing endpoint's records: one notice summary, and the envelope one
//! page of the listing comes in.

use vstd::prelude::*;

verus! {

/// One notice summary as the listing endpoint reports it.  `createTime` is
/// advisory text, not a validated date; `id` is the sole correlation key
/// between listing and detail.
#[allow(non_snake_case)]
#[derive(Debug, Clone)]
pub struct NoticeMetadata {
    pub id: String,
    pub title: String,
    pub createTime: String,
    pub label: Option<String>,
    pub isLastest: Option<bool>,
}

/// One page of the listing: its records (absent when the endpoint returns
/// none, which is a valid empty result) and the total record count, which
/// drives pagination.
#[derive(Debug)]
pub struct FindInformNotice {
    pub list: Option<Vec<NoticeMetadata>>,
    pub total: u32,
}

} // verus!
