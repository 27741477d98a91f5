use bulk_pipeline::errors::PipelineError;
use bulk_pipeline::extract::{merge_page_results, merge_page_results_strict, sort_by_created_on, PageResult};
use bulk_pipeline::partition::{compute_pages, Page};
use bulk_pipeline::record::Conditions;

fn rec(id: String) -> Conditions {
    Conditions {
        id,
        created_on: 0,
        location: "site".to_string(),
        temperature: None,
        humidity: None,
    }
}

fn page_rows(page: &Page) -> Vec<Conditions> {
    let mut rows = Vec::new();
    for x in page.offset..page.offset + page.limit {
        rows.push(rec(format!("row{}", x)));
    }
    rows
}

#[test]
fn parallel_extraction_of_2500_rows() {
    let pages = compute_pages(2500, 1000).unwrap();
    assert_eq!(pages.len(), 3);
    let mut results = Vec::new();
    for p in &pages {
        results.push(PageResult { page: *p, rows: Ok(page_rows(p)) });
    }
    let out = merge_page_results(results);
    assert_eq!(out.records.len(), 2500);
    assert!(out.failures.is_empty());
    assert_eq!(out.records[0].id, "row0");
    assert_eq!(out.records[1000].id, "row1000");
    assert_eq!(out.records[2499].id, "row2499");
}

#[test]
fn continue_on_error_keeps_good_pages() {
    let pages = compute_pages(30, 10).unwrap();
    let results = vec![
        PageResult { page: pages[0], rows: Ok(page_rows(&pages[0])) },
        PageResult {
            page: pages[1],
            rows: Err(PipelineError::QueryFailed("malformed filter".to_string())),
        },
        PageResult { page: pages[2], rows: Ok(page_rows(&pages[2])) },
    ];
    let out = merge_page_results(results);
    assert_eq!(out.records.len(), 20);
    assert_eq!(out.records[0].id, "row0");
    assert_eq!(out.records[10].id, "row20");
    assert_eq!(out.failures.len(), 1);
    assert_eq!(out.failures[0].page, pages[1]);
    assert!(matches!(
        out.failures[0].error,
        PipelineError::QueryFailed(_)
    ));
}

#[test]
fn strict_merge_fails_on_first_error() {
    let pages = compute_pages(20, 10).unwrap();
    let results = vec![
        PageResult {
            page: pages[0],
            rows: Err(PipelineError::QueryFailed("boom".to_string())),
        },
        PageResult { page: pages[1], rows: Ok(page_rows(&pages[1])) },
    ];
    let r = merge_page_results_strict(results);
    assert!(matches!(r, Err(PipelineError::QueryFailed(_))));
}

#[test]
fn strict_merge_returns_all_rows_when_clean() {
    let pages = compute_pages(20, 10).unwrap();
    let mut results = Vec::new();
    for p in &pages {
        results.push(PageResult { page: *p, rows: Ok(page_rows(p)) });
    }
    let rows = merge_page_results_strict(results).unwrap();
    assert_eq!(rows.len(), 20);
}

#[test]
fn resort_orders_by_creation_instant() {
    let mut records = Vec::new();
    for (id, created) in [("c", 30i64), ("a", 10), ("d", 40), ("b", 20)] {
        let mut r = rec(id.to_string());
        r.created_on = created;
        records.push(r);
    }
    let sorted = sort_by_created_on(records);
    let ids: Vec<&str> = sorted.iter().map(|r| r.id.as_str()).collect();
    assert_eq!(ids, vec!["a", "b", "c", "d"]);
    for w in sorted.windows(2) {
        assert!(w[0].created_on <= w[1].created_on);
    }
}

#[test]
fn failures_keep_their_phase() {
    let pages = compute_pages(20, 10).unwrap();
    let results = vec![
        PageResult {
            page: pages[0],
            rows: Err(PipelineError::ChannelFailed("sink closed".to_string())),
        },
        PageResult {
            page: pages[1],
            rows: Err(PipelineError::TransactionFailed("commit lost".to_string())),
        },
    ];
    let out = merge_page_results(results);
    assert!(out.records.is_empty());
    assert_eq!(out.failures.len(), 2);
    assert!(matches!(out.failures[0].error, PipelineError::ChannelFailed(_)));
    assert!(matches!(
        out.failures[1].error,
        PipelineError::TransactionFailed(_)
    ));
}
