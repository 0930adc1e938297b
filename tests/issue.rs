use pbmetric::counts::LineCounts;
use pbmetric::issue::{attribute_lines, individual_stats, IndividualStats, IssueMetadata};
use pbmetric::table::StrMap;

const SINCE: i64 = 1_000;
const ASOF: i64 = 2_000;

fn table(entries: &[(&str, &str)]) -> StrMap<String> {
    let mut t = StrMap::new();
    for (k, v) in entries {
        t.insert(k.to_string(), v.to_string());
    }
    t
}

fn issue(author: &str, labels: &[&str], assignees: &[&str], created: i64, closed: Option<i64>) -> IssueMetadata {
    IssueMetadata {
        author: author.to_string(),
        labels: labels.iter().map(|s| s.to_string()).collect(),
        assignees: assignees.iter().map(|s| s.to_string()).collect(),
        created_at: created,
        closed_at: closed,
    }
}

fn stats_of(t: &StrMap<IndividualStats>, person: &str) -> IndividualStats {
    *t.get(&person.to_string()).unwrap()
}

#[test]
fn issues_and_pull_requests_per_person() {
    let accounts = table(&[("alice-gh", "Alice"), ("bob-gh", "Bob")]);
    let issues = vec![
        issue("alice-gh", &["bug"], &[], 1_500, None),
        issue("alice-gh", &["feature"], &["bob-gh", "stranger"], 1_600, Some(1_700)),
        issue("bob-gh", &[], &["alice-gh"], 500, Some(1_999)),
        issue("bob-gh", &[], &["alice-gh"], 2_000, Some(2_000)),
        issue("nobody", &["bug"], &[], 1_500, None),
    ];
    let mut prs = StrMap::new();
    prs.insert("bob-gh".to_string(), (3usize, 7u64));
    prs.insert("stranger".to_string(), (9usize, 9u64));
    let stats = individual_stats(&issues, &prs, &accounts, SINCE, ASOF);
    assert_eq!(stats.len(), 2);
    let alice = stats_of(&stats, "Alice");
    assert_eq!(alice.bugs_reported, 1);
    assert_eq!(alice.issues_opened, 1);
    assert_eq!(alice.issues_completed, 1);
    assert_eq!(alice.merged_merge_requests_opened, 0);
    let bob = stats_of(&stats, "Bob");
    assert_eq!(bob.issues_opened, 0);
    assert_eq!(bob.issues_completed, 1);
    assert_eq!(bob.merged_merge_requests_opened, 3);
    assert_eq!(bob.merge_request_notes, 7);
    assert_eq!(bob.lines_contributed, 0);
}

#[test]
fn two_logins_of_one_person_add_up() {
    let accounts = table(&[("a1", "Ann"), ("a2", "Ann")]);
    let mut prs = StrMap::new();
    prs.insert("a1".to_string(), (1usize, 2u64));
    prs.insert("a2".to_string(), (4usize, 5u64));
    let stats = individual_stats(&vec![], &prs, &accounts, SINCE, ASOF);
    let ann = stats_of(&stats, "Ann");
    assert_eq!(ann.merged_merge_requests_opened, 5);
    assert_eq!(ann.merge_request_notes, 7);
}

#[test]
fn lines_are_attributed_or_reported_unmapped() {
    let mut total = LineCounts::new();
    total.add("alice@example.com".to_string(), 10);
    total.add("alice@home.net".to_string(), 5);
    total.add("ghost@example.com".to_string(), 4);
    let emails = table(&[("alice@example.com", "Alice"), ("alice@home.net", "Alice")]);
    let mut stats = individual_stats(&vec![], &StrMap::new(), &table(&[]), SINCE, ASOF);
    let unmapped = attribute_lines(&mut stats, &total, &emails);
    assert_eq!(stats_of(&stats, "Alice").lines_contributed, 15);
    assert_eq!(unmapped, vec![("ghost@example.com".to_string(), 4)]);
    let credited: usize = (0..stats.len()).map(|i| stats.value_at(i).lines_contributed).sum();
    let deferred: usize = unmapped.iter().map(|u| u.1).sum();
    assert_eq!(credited + deferred, total.total());
}

#[test]
fn person_from_lines_only_gets_zero_elsewhere() {
    let mut total = LineCounts::new();
    total.add("c@x".to_string(), 2);
    let mut stats = individual_stats(&vec![], &StrMap::new(), &table(&[]), SINCE, ASOF);
    let unmapped = attribute_lines(&mut stats, &total, &table(&[("c@x", "Cy")]));
    assert!(unmapped.is_empty());
    let cy = stats_of(&stats, "Cy");
    assert_eq!(cy, IndividualStats { lines_contributed: 2, ..IndividualStats::default() });
}

#[test]
fn no_mapping_defers_every_line() {
    let mut total = LineCounts::new();
    total.add("a@x".to_string(), 1);
    total.add("b@x".to_string(), 2);
    let mut stats = StrMap::new();
    let unmapped = attribute_lines(&mut stats, &total, &table(&[]));
    assert_eq!(stats.len(), 0);
    assert_eq!(unmapped, vec![("a@x".to_string(), 1), ("b@x".to_string(), 2)]);
}
