use pbmetric::github::{split_repository, tally_merged_pull_requests, MergedPullRequest};
use pbmetric::report::report_since;
use pbmetric::table::StrMap;

fn merged(author: Option<&str>, created_at: i64, comments: u64) -> MergedPullRequest {
    MergedPullRequest { author: author.map(|a| a.to_string()), created_at, comments }
}

#[test]
fn repository_names_split_at_first_slash() {
    assert_eq!(split_repository("petabi/tool"), Some(("petabi".to_string(), "tool".to_string())));
    assert_eq!(split_repository("a/b/c"), Some(("a".to_string(), "b/c".to_string())));
    assert_eq!(split_repository("/x"), Some((String::new(), "x".to_string())));
    assert_eq!(split_repository("plain"), None);
}

#[test]
fn merged_pull_requests_counted_until_window_start() {
    let mut counts = StrMap::new();
    let prs = vec![
        merged(Some("ann"), 300, 2),
        merged(None, 50, 9),
        merged(Some("bo"), 250, 1),
        merged(Some("ann"), 200, 3),
        merged(Some("bo"), 99, 5),
        merged(Some("ann"), 400, 7),
    ];
    tally_merged_pull_requests(&mut counts, &prs, 100);
    assert_eq!(counts.get(&"ann".to_string()), Some(&(2, 5)));
    assert_eq!(counts.get(&"bo".to_string()), Some(&(1, 1)));
    assert_eq!(counts.len(), 2);
    tally_merged_pull_requests(&mut counts, &vec![merged(Some("bo"), 150, 4)], 100);
    assert_eq!(counts.get(&"bo".to_string()), Some(&(2, 5)));
}

#[test]
fn report_window_start() {
    let asof = 100_000_000;
    assert_eq!(report_since(asof, None), asof - 7_776_000);
    assert_eq!(report_since(asof, Some(asof - 10)), asof - 10);
    assert_eq!(report_since(asof, Some(0)), asof - 7_776_000);
}
