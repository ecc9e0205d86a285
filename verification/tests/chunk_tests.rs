use oxidize::ranges::chunk_date_range;

fn chunks(start: &str, end: &str) -> Vec<(String, String)> {
    chunk_date_range(start, end).unwrap()
}

fn pair(a: &str, b: &str) -> (String, String) {
    (a.to_string(), b.to_string())
}

#[test]
fn test_single_month_range() {
    let chunks = chunks("2026-01-01", "2026-01-31");
    assert_eq!(chunks.len(), 1);
    assert_eq!(chunks[0], pair("2026-01-01", "2026-01-31"));
}

#[test]
fn test_single_day_range() {
    let chunks = chunks("2026-06-15", "2026-06-15");
    assert_eq!(chunks.len(), 1);
    assert_eq!(chunks[0], pair("2026-06-15", "2026-06-15"));
}

#[test]
fn test_two_month_range() {
    let chunks = chunks("2026-01-15", "2026-03-10");
    assert_eq!(chunks.len(), 3);
    assert_eq!(chunks[0], pair("2026-01-15", "2026-01-31"));
    assert_eq!(chunks[1], pair("2026-02-01", "2026-02-28"));
    assert_eq!(chunks[2], pair("2026-03-01", "2026-03-10"));
}

#[test]
fn test_cross_year_range() {
    let chunks = chunks("2025-11-01", "2026-02-28");
    assert_eq!(chunks.len(), 4);
    assert_eq!(chunks[0], pair("2025-11-01", "2025-11-30"));
    assert_eq!(chunks[1], pair("2025-12-01", "2025-12-31"));
    assert_eq!(chunks[2], pair("2026-01-01", "2026-01-31"));
    assert_eq!(chunks[3], pair("2026-02-01", "2026-02-28"));
}

#[test]
fn test_multi_year_range() {
    let chunks = chunks("2024-06-01", "2026-06-30");
    assert_eq!(chunks.len(), 25);
    assert_eq!(chunks[0], pair("2024-06-01", "2024-06-30"));
    assert_eq!(chunks[1], pair("2024-07-01", "2024-07-31"));
    // Last chunk should end at June 30, 2026
    assert_eq!(chunks[24], pair("2026-06-01", "2026-06-30"));
}

#[test]
fn test_leap_year_feb() {
    let chunks = chunks("2024-02-01", "2024-02-29");
    assert_eq!(chunks.len(), 1);
    assert_eq!(chunks[0], pair("2024-02-01", "2024-02-29"));
}

#[test]
fn test_full_year_range() {
    let chunks = chunks("2025-01-01", "2025-12-31");
    assert_eq!(chunks.len(), 12);
    assert_eq!(chunks[0], pair("2025-01-01", "2025-01-31"));
    assert_eq!(chunks[11], pair("2025-12-01", "2025-12-31"));
}

#[test]
fn chunks_empty_when_start_after_end() {
    assert!(chunks("2026-02-01", "2026-01-31").is_empty());
}

#[test]
fn chunks_bad_date_is_error() {
    assert!(chunk_date_range("2026-02-30", "2026-03-31").is_err());
}

#[test]
fn chunks_tile_the_range() {
    let c = chunks("2023-12-20", "2024-03-05");
    assert_eq!(c.first().unwrap().0, "2023-12-20");
    assert_eq!(c.last().unwrap().1, "2024-03-05");
    assert_eq!(c, vec![
        pair("2023-12-20", "2023-12-31"),
        pair("2024-01-01", "2024-01-31"),
        pair("2024-02-01", "2024-02-29"),
        pair("2024-03-01", "2024-03-05"),
    ]);
}
