use bulk_pipeline::errors::PipelineError;
use bulk_pipeline::partition::{compute_pages, count_from_result, count_query, windowed_query, CountResult, Page};

#[test]
fn pages_for_2500_by_1000() {
    let pages = compute_pages(2500, 1000).unwrap();
    assert_eq!(
        pages,
        vec![
            Page { offset: 0, limit: 1000 },
            Page { offset: 1000, limit: 1000 },
            Page { offset: 2000, limit: 500 },
        ]
    );
}

#[test]
fn pages_zero_total_is_empty() {
    let pages = compute_pages(0, 1000).unwrap();
    assert!(pages.is_empty());
}

#[test]
fn pages_small_total_single_page() {
    let pages = compute_pages(7, 1000).unwrap();
    assert_eq!(pages, vec![Page { offset: 0, limit: 7 }]);
}

#[test]
fn pages_exact_multiple() {
    let pages = compute_pages(20, 10).unwrap();
    assert_eq!(
        pages,
        vec![Page { offset: 0, limit: 10 }, Page { offset: 10, limit: 10 }]
    );
}

#[test]
fn pages_cover_every_row_once() {
    let total: u64 = 2500;
    let pages = compute_pages(total, 1000).unwrap();
    let mut seen = vec![0u32; total as usize];
    for p in &pages {
        for x in p.offset..p.offset + p.limit {
            seen[x as usize] += 1;
        }
    }
    assert!(seen.iter().all(|&c| c == 1));
}

#[test]
fn page_size_zero_rejected() {
    let r = compute_pages(100, 0);
    assert!(matches!(r, Err(PipelineError::InvalidArgument)));
}

#[test]
fn count_positive_is_total() {
    let r = count_from_result(&CountResult { count: 42 });
    assert_eq!(r.unwrap(), 42);
}

#[test]
fn count_zero_is_an_empty_source() {
    // A total of zero is a valid answer: zero pages, empty extraction.
    let r = count_from_result(&CountResult { count: 0 });
    assert_eq!(r.unwrap(), 0);
    let pages = compute_pages(0, 1000).unwrap();
    assert!(pages.is_empty());
}

#[test]
fn count_negative_is_a_backend_fault() {
    let r = count_from_result(&CountResult { count: -3 });
    assert!(matches!(r, Err(PipelineError::QueryFailed(_))));
}

#[test]
fn count_query_text() {
    assert_eq!(
        count_query("created_on BETWEEN '2023-01-01' AND '2023-12-31'"),
        "SELECT COUNT(id) AS total FROM conditions WHERE created_on BETWEEN '2023-01-01' AND '2023-12-31'"
    );
}

#[test]
fn windowed_query_text() {
    let page = Page { offset: 2000, limit: 500 };
    let expected = "SELECT id, created_on, location, temperature, humidity FROM conditions \
         WHERE location = 'lab' ORDER BY created_on OFFSET 2000 ROWS FETCH NEXT 500 ROWS ONLY";
    assert_eq!(windowed_query("location = 'lab'", &page), expected);
}
