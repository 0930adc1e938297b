use pbmetric::blame::{parse_blame, parse_blame_line, record_line, in_window, WarningKind};
use pbmetric::counts::LineCounts;

fn ts(s: &str) -> i64 {
    chrono::DateTime::parse_from_rfc3339(s).unwrap().timestamp()
}

fn window() -> (i64, i64) {
    (ts("2024-01-01T00:00:00Z"), ts("2024-01-04T00:00:00Z"))
}

fn entries(c: &LineCounts) -> Vec<(String, usize)> {
    let mut v: Vec<(String, usize)> = (0..c.len())
        .map(|i| (c.email_at(i).clone(), c.count_at(i)))
        .collect();
    v.sort();
    v
}

#[test]
fn line_in_window_counts_once() {
    let (since, asof) = window();
    let (c, w) = parse_blame("(<alice@example.com> 2024-01-02 10:00:00 +0000 1)\n", since, asof);
    assert_eq!(entries(&c), vec![("alice@example.com".to_string(), 1)]);
    assert!(w.is_empty());
}

#[test]
fn line_after_window_counts_nothing() {
    let (since, asof) = window();
    let (c, w) = parse_blame("(<alice@example.com> 2024-01-05 10:00:00 +0000 1)\n", since, asof);
    assert_eq!(c.get(&"alice@example.com".to_string()), 0);
    assert_eq!(c.len(), 0);
    assert!(w.is_empty());
}

#[test]
fn end_to_end_two_lines() {
    let (since, asof) = window();
    let text = "abc123 (<alice@example.com> 2024-01-02 10:00:00 +0000 1) foo\n\
                def456 (<bob@example.com> 2024-01-05 10:00:00 +0000 2) bar\n";
    let (c, w) = parse_blame(text, since, asof);
    assert_eq!(entries(&c), vec![("alice@example.com".to_string(), 1)]);
    assert_eq!(c.total(), 1);
    assert!(w.is_empty());
}

#[test]
fn malformed_lines_are_skipped_with_warnings() {
    let (since, asof) = window();
    let text = "no marker here\n\
                (<alice@example.com 2024-01-02 10:00:00 +0000 1) x\n\
                (<alice@example.com> not-a-date 1) y\n\
                (<carol@example.com> 2024-01-02 10:00:00 +0000 4) z\n";
    let (c, w) = parse_blame(text, since, asof);
    assert_eq!(entries(&c), vec![("carol@example.com".to_string(), 1)]);
    let kinds: Vec<(usize, WarningKind)> = w.iter().map(|w| (w.line, w.kind)).collect();
    assert_eq!(
        kinds,
        vec![
            (0, WarningKind::MissingEmailStart),
            (1, WarningKind::MissingEmailEnd),
            (2, WarningKind::InvalidTimestamp),
        ]
    );
    assert_eq!(w[0].text, "no marker here");
}

#[test]
fn missing_metadata_end_and_timestamp_end() {
    assert_eq!(
        parse_blame_line("(<a@b.c> 2024-01-02 10:00:00 +0000 1").unwrap_err(),
        WarningKind::MissingMetadataEnd
    );
    assert_eq!(parse_blame_line("(<a@b.c>x)").unwrap_err(), WarningKind::MissingTimestampEnd);
}

#[test]
fn fields_of_a_line() {
    let f = parse_blame_line("^1a2b3c4 src/x.rs (<dev@corp.io>   2023-12-31 23:59:59 -0500  12) fn main() {}").unwrap();
    assert_eq!(f.email, "dev@corp.io");
    assert_eq!(f.timestamp, "2023-12-31 23:59:59 -0500");
}

#[test]
fn window_is_half_open() {
    let (since, asof) = window();
    let text = "(<a@x> 2024-01-01 00:00:00 +0000 1)\n(<b@x> 2024-01-04 00:00:00 +0000 2)\n";
    let (c, _) = parse_blame(text, since, asof);
    assert_eq!(entries(&c), vec![("a@x".to_string(), 1)]);
}

#[test]
fn offsets_are_normalized() {
    let (since, asof) = window();
    // 2024-01-01 08:00 +0900 is 2023-12-31 23:00 UTC: before the window.
    let text = "(<a@x> 2024-01-01 08:00:00 +0900 1)\n(<b@x> 2024-01-03 20:00:00 -0300 2)\n";
    let (c, _) = parse_blame(text, since, asof);
    // 2024-01-03 20:00 -0300 is 2024-01-03 23:00 UTC: inside.
    assert_eq!(entries(&c), vec![("b@x".to_string(), 1)]);
}

#[test]
fn empty_text_and_trailing_newline() {
    let (since, asof) = window();
    let (c, w) = parse_blame("", since, asof);
    assert_eq!(c.len(), 0);
    assert!(w.is_empty());
    let (c, w) = parse_blame("(<a@x> 2024-01-02 00:00:00 +0000 1)", since, asof);
    assert_eq!(entries(&c), vec![("a@x".to_string(), 1)]);
    assert!(w.is_empty());
    // Two empty lines, then the trailing artifact that is not a line.
    let (_, w) = parse_blame("\n\n", since, asof);
    assert_eq!(w.len(), 2);
    assert_eq!(w[1].kind, WarningKind::MissingEmailStart);
}

#[test]
fn repeated_email_accumulates() {
    let (since, asof) = window();
    let text = "(<a@x> 2024-01-02 00:00:00 +0000 1)\n(<a@x> 2024-01-02 01:00:00 +0000 2)\n(<A@x> 2024-01-02 01:00:00 +0000 3)\n";
    let (c, _) = parse_blame(text, since, asof);
    assert_eq!(entries(&c), vec![("A@x".to_string(), 1), ("a@x".to_string(), 2)]);
}

#[test]
fn record_line_by_outcome() {
    let mut c = LineCounts::new();
    assert_eq!(record_line(&mut c, "a".to_string(), None, 0, 10), Some(WarningKind::InvalidTimestamp));
    assert_eq!(record_line(&mut c, "a".to_string(), Some(10), 0, 10), None);
    assert_eq!(c.len(), 0);
    assert_eq!(record_line(&mut c, "a".to_string(), Some(0), 0, 10), None);
    assert_eq!(c.get(&"a".to_string()), 1);
    assert!(in_window(5, 5, 6));
    assert!(!in_window(6, 5, 6));
}

#[test]
fn removing_a_malformed_line_changes_no_count() {
    let (since, asof) = window();
    let before = "(<a@x> 2024-01-02 00:00:00 +0000 1)\n";
    let after = "(<b@x> 2024-01-03 00:00:00 +0000 3)\n(<a@x> 2024-01-02 05:00:00 +0000 4)";
    for bad in ["no marker", "(<a@x 2024-01-02 00:00:00 +0000 2)", "(<a@x> garbage 2)"] {
        let (with_line, w) = parse_blame(&format!("{before}{bad}\n{after}"), since, asof);
        let (without, _) = parse_blame(&format!("{before}{after}"), since, asof);
        assert_eq!(entries(&with_line), entries(&without), "{bad}");
        assert_eq!(w.len(), 1);
    }
}
