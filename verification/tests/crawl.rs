use scut_notices::crawl::{apply_page_after_date, apply_page_all, is_last_page};
use scut_notices::date::NoticeDate;
use scut_notices::metadata::{FindInformNotice, NoticeMetadata};

fn notice(id: &str, create_time: &str) -> NoticeMetadata {
    NoticeMetadata {
        id: id.to_string(),
        title: format!("notice {}", id),
        createTime: create_time.to_string(),
        label: None,
        isLastest: None,
    }
}

#[test]
fn pagination_stops_once_total_is_covered() {
    assert!(!is_last_page(42, 1, 15));
    assert!(!is_last_page(42, 2, 15));
    assert!(is_last_page(42, 3, 15));
    assert!(is_last_page(42, 4, 15));
}

#[test]
fn pagination_boundary_cases() {
    assert!(is_last_page(0, 1, 15));
    assert!(is_last_page(15, 1, 15));
    assert!(!is_last_page(16, 1, 15));
    assert!(is_last_page(u32::MAX, u32::MAX, u32::MAX));
}

#[test]
fn absent_list_is_zero_records_and_pagination_continues() {
    let mut acc: Vec<NoticeMetadata> = Vec::new();
    let page = FindInformNotice { list: None, total: 42 };
    let done = apply_page_all(&mut acc, page, 1, 15);
    assert_eq!(acc.len(), 0);
    assert!(!done);

    let cutoff = NoticeDate { year: 2024, month: 1, day: 1 };
    let page = FindInformNotice { list: None, total: 42 };
    let done = apply_page_after_date(&mut acc, page, &cutoff, 2, 15);
    assert_eq!(acc.len(), 0);
    assert!(!done);
}

#[test]
fn exhaustive_crawl_keeps_every_record_in_order() {
    let mut acc: Vec<NoticeMetadata> = Vec::new();
    let page = FindInformNotice {
        list: Some(vec![notice("1", "2024.05.01"), notice("2", "bad")]),
        total: 2,
    };
    let done = apply_page_all(&mut acc, page, 1, 15);
    assert!(done);
    assert_eq!(acc.len(), 2);
    assert_eq!(acc[0].id, "1");
    assert_eq!(acc[1].id, "2");
}

#[test]
fn date_bounded_crawl_included_and_excluded_cutoffs() {
    let cutoff = NoticeDate { year: 2024, month: 3, day: 1 };
    let mut acc: Vec<NoticeMetadata> = Vec::new();
    let page = FindInformNotice { list: Some(vec![notice("1", "2024.03.15")]), total: 1 };
    apply_page_after_date(&mut acc, page, &cutoff, 1, 15);
    assert_eq!(acc.len(), 1);
    assert_eq!(acc[0].id, "1");

    let cutoff = NoticeDate { year: 2024, month: 4, day: 1 };
    let mut acc: Vec<NoticeMetadata> = Vec::new();
    let page = FindInformNotice { list: Some(vec![notice("1", "2024.03.15")]), total: 1 };
    apply_page_after_date(&mut acc, page, &cutoff, 1, 15);
    assert_eq!(acc.len(), 0);
}

#[test]
fn first_non_matching_record_ends_the_page_scan() {
    let cutoff = NoticeDate { year: 2024, month: 3, day: 1 };
    let mut acc: Vec<NoticeMetadata> = Vec::new();
    let page = FindInformNotice {
        list: Some(vec![
            notice("1", "2024.05.01"),
            notice("2", "2024.01.01"),
            notice("3", "2024.06.01"),
        ]),
        total: 3,
    };
    apply_page_after_date(&mut acc, page, &cutoff, 1, 15);
    assert_eq!(acc.len(), 1);
    assert_eq!(acc[0].id, "1");
}

#[test]
fn malformed_date_maps_to_sentinel_and_is_excluded() {
    let cutoff = NoticeDate { year: 2024, month: 3, day: 1 };
    let mut acc: Vec<NoticeMetadata> = Vec::new();
    let page = FindInformNotice {
        list: Some(vec![notice("1", "not a date"), notice("2", "2024.05.01")]),
        total: 2,
    };
    apply_page_after_date(&mut acc, page, &cutoff, 1, 15);
    assert_eq!(acc.len(), 0);
}

#[test]
fn records_accumulate_across_pages() {
    let cutoff = NoticeDate { year: 2020, month: 1, day: 1 };
    let mut acc: Vec<NoticeMetadata> = Vec::new();
    let page1 = FindInformNotice { list: Some(vec![notice("1", "2024.05.01")]), total: 17 };
    let done = apply_page_after_date(&mut acc, page1, &cutoff, 1, 15);
    assert!(!done);
    let page2 = FindInformNotice { list: Some(vec![notice("2", "2024.04.01")]), total: 17 };
    let done = apply_page_after_date(&mut acc, page2, &cutoff, 2, 15);
    assert!(done);
    assert_eq!(acc.len(), 2);
    assert_eq!(acc[0].id, "1");
    assert_eq!(acc[1].id, "2");
}
