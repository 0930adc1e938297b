use pbmetric::counts::LineCounts;
use pbmetric::github::{is_stale, Issue, PullRequest};
use pbmetric::report::{print_unknown_emails, write_issues_section, write_pull_request_section};
use pbmetric::table::StrMap;

fn accounts() -> StrMap<String> {
    let mut t = StrMap::new();
    t.insert("bob-gh".to_string(), "Bob".to_string());
    t
}

fn pr(title: &str, number: i64) -> PullRequest {
    PullRequest {
        title: title.to_string(),
        number,
        repo: "tool".to_string(),
        reviewers: vec!["bob-gh".to_string()],
        assignees: vec!["eve".to_string()],
    }
}

#[test]
fn pull_requests_under_review() {
    let out = write_pull_request_section(&vec![pr("[WIP] later", 1), pr("Fix parser", 42)], &accounts());
    assert_eq!(
        out,
        "<h2>Pull Requests Under Review</h2>\n<ul><li><a href=\"https://github.com/petabi/tool/pull/42\">tool#42</a> Fix parser @Bob @eve</ul>\n"
    );
}

#[test]
fn only_work_in_progress_gives_no_section() {
    assert_eq!(write_pull_request_section(&vec![pr("[WIP] a", 1)], &accounts()), "");
    assert_eq!(write_pull_request_section(&vec![], &accounts()), "");
}

#[test]
fn stale_issues_section() {
    let issues = vec![
        Issue { title: "Crash".to_string(), number: 7, repo: "app".to_string(), assignees: vec!["bob-gh".to_string()] },
        Issue { title: "Odd".to_string(), number: -3, repo: "app".to_string(), assignees: vec![] },
    ];
    assert_eq!(
        write_issues_section(&issues, &accounts()),
        "<h2>Assigned Issues with No Update in Past 24 Hours</h2>\n<ul>\
         <li><a href=\"https://github.com/petabi/app/issues/7\">app#7</a> Crash @Bob\n\
         <li><a href=\"https://github.com/petabi/app/issues/-3\">app#-3</a> Odd\n</ul>\n"
    );
}

#[test]
fn unknown_emails_are_listed() {
    let mut total = LineCounts::new();
    total.add("known@x".to_string(), 3);
    total.add("who@x".to_string(), 1234);
    let mut map = StrMap::new();
    map.insert("known@x".to_string(), "Known".to_string());
    assert_eq!(
        print_unknown_emails(&total, &map),
        "\n<h2>Other emails in commits</h2>\n<ul>\n<li>who@x: 1234 lines contributed\n</ul>\n"
    );
    map.insert("who@x".to_string(), "Who".to_string());
    assert_eq!(print_unknown_emails(&total, &map), "");
}

#[test]
fn zero_count_is_printed() {
    let mut total = LineCounts::new();
    total.add("z@x".to_string(), 0);
    assert_eq!(
        print_unknown_emails(&total, &StrMap::new()),
        "\n<h2>Other emails in commits</h2>\n<ul>\n<li>z@x: 0 lines contributed\n</ul>\n"
    );
}

#[test]
fn staleness_is_a_full_day() {
    assert!(is_stale(0, 86_400));
    assert!(!is_stale(1, 86_400));
    assert!(!is_stale(i64::MIN, i64::MIN));
}
