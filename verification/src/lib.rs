//! Core logic of a notice crawler for a university academic-affairs portal:
//! a paginated, date-bounded listing crawl and an HTML detail-extraction
//! pipeline.  All network and DOM work happens outside this crate; the types
//! here hold the plain values that the logic reads, and every function is
//! verified against its contract.

pub mod attach;
pub mod crawl;
pub mod date;
pub mod detail;
pub mod extract;
pub mod metadata;
pub mod text;
