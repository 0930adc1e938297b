//! Reconciliation of identities and merging of per-person statistics from
//! issue activity, merged pull requests and attributed lines of code.

use vstd::prelude::*;
use crate::blame::in_window_spec;
use crate::counts::{LineCounts, nat_sum, lemma_nat_sum_take, lemma_nat_sum_update};
use crate::table::StrMap;

verus! {

/// The statistics of one person over a time window.
///
/// `issues_completed` credits each mapped assignee of a closed issue with
/// one whole issue. Splitting that credit `1/N` among `N` assignees, as the
/// tracker's own counters do, is an open product decision and is not done
/// here.
#[derive(Clone, Copy, Debug, PartialEq, Eq, Structural)]
pub struct IndividualStats {
    pub bugs_reported: usize,
    pub issues_completed: usize,
    pub issues_opened: usize,
    pub merged_merge_requests_opened: usize,
    pub merge_request_notes: u64,
    pub lines_contributed: usize,
}

pub open spec fn zero_stats() -> IndividualStats {
    IndividualStats {
        bugs_reported: 0,
        issues_completed: 0,
        issues_opened: 0,
        merged_merge_requests_opened: 0,
        merge_request_notes: 0,
        lines_contributed: 0,
    }
}

impl Default for IndividualStats {
    fn default() -> (r: Self)
        ensures
            r == zero_stats(),
    {
        IndividualStats {
            bugs_reported: 0,
            issues_completed: 0,
            issues_opened: 0,
            merged_merge_requests_opened: 0,
            merge_request_notes: 0,
            lines_contributed: 0,
        }
    }
}

/// An issue of the tracker: who opened it, its labels, who is assigned to
/// it, and when it was created and closed (seconds since the Unix epoch).
pub struct IssueMetadata {
    pub author: String,
    pub labels: Vec<String>,
    pub assignees: Vec<String>,
    pub created_at: i64,
    pub closed_at: Option<i64>,
}

/// The statistics of `p` in `m`; zero where `m` has none.
pub open spec fn stats_get(m: Map<Seq<char>, IndividualStats>, p: Seq<char>) -> IndividualStats {
    if m.contains_key(p) {
        m[p]
    } else {
        zero_stats()
    }
}

/// The person that an identity table gives for `id`.
pub open spec fn person_of(table: Map<Seq<char>, String>, id: Seq<char>) -> Option<Seq<char>> {
    if table.contains_key(id) {
        Some(table[id]@)
    } else {
        None
    }
}

pub open spec fn with_opened(s: IndividualStats, is_bug: bool) -> IndividualStats {
    if is_bug {
        IndividualStats { bugs_reported: (s.bugs_reported + 1) as usize, ..s }
    } else {
        IndividualStats { issues_opened: (s.issues_opened + 1) as usize, ..s }
    }
}

pub open spec fn with_completed(s: IndividualStats) -> IndividualStats {
    IndividualStats { issues_completed: (s.issues_completed + 1) as usize, ..s }
}

pub open spec fn with_pull_requests(s: IndividualStats, n: usize, notes: u64) -> IndividualStats {
    IndividualStats {
        merged_merge_requests_opened: (s.merged_merge_requests_opened + n) as usize,
        merge_request_notes: (s.merge_request_notes + notes) as u64,
        ..s
    }
}

pub open spec fn with_lines(s: IndividualStats, n: nat) -> IndividualStats {
    IndividualStats { lines_contributed: (s.lines_contributed + n) as usize, ..s }
}

/// Whether one of `labels` reads `label`.
pub open spec fn has_label(labels: Seq<String>, label: Seq<char>) -> bool {
    exists|i: int| 0 <= i < labels.len() && labels[i]@ == label
}

/// One completed issue credited to each of its mapped assignees.
pub open spec fn credit_completed(
    m: Map<Seq<char>, IndividualStats>,
    assignees: Seq<String>,
    accounts: Map<Seq<char>, String>,
) -> Map<Seq<char>, IndividualStats>
    decreases assignees.len(),
{
    if assignees.len() == 0 {
        m
    } else {
        let m2 = credit_completed(m, assignees.drop_last(), accounts);
        match person_of(accounts, assignees.last()@) {
            Some(p) => m2.insert(p, with_completed(stats_get(m2, p))),
            None => m2,
        }
    }
}

/// What one issue adds: an opened issue (a bug where it is labelled `bug`)
/// for its author where it was created in `[since, asof)`, and a completed
/// issue for each assignee where it was closed in `[since, asof)`; only
/// identities that `accounts` maps count.
pub open spec fn issue_step(
    m: Map<Seq<char>, IndividualStats>,
    issue: IssueMetadata,
    accounts: Map<Seq<char>, String>,
    since: int,
    asof: int,
) -> Map<Seq<char>, IndividualStats> {
    let m1 = if in_window_spec(issue.created_at as int, since, asof) {
        match person_of(accounts, issue.author@) {
            Some(p) => m.insert(p, with_opened(stats_get(m, p), has_label(issue.labels@, "bug"@))),
            None => m,
        }
    } else {
        m
    };
    match issue.closed_at {
        Some(c) => if in_window_spec(c as int, since, asof) {
            credit_completed(m1, issue.assignees@, accounts)
        } else {
            m1
        },
        None => m1,
    }
}

pub open spec fn issues_tally(
    m: Map<Seq<char>, IndividualStats>,
    issues: Seq<IssueMetadata>,
    accounts: Map<Seq<char>, String>,
    since: int,
    asof: int,
) -> Map<Seq<char>, IndividualStats>
    decreases issues.len(),
{
    if issues.len() == 0 {
        m
    } else {
        issue_step(
            issues_tally(m, issues.drop_last(), accounts, since, asof),
            issues.last(),
            accounts,
            since,
            asof,
        )
    }
}

/// Merged pull requests and their comments, per login, credited to the
/// persons that `accounts` maps the logins to.
pub open spec fn pull_requests_tally(
    m: Map<Seq<char>, IndividualStats>,
    logins: Seq<Seq<char>>,
    counts: Seq<(usize, u64)>,
    accounts: Map<Seq<char>, String>,
) -> Map<Seq<char>, IndividualStats>
    decreases logins.len(),
{
    if logins.len() == 0 {
        m
    } else {
        let m2 = pull_requests_tally(m, logins.drop_last(), counts.take(logins.len() - 1), accounts);
        let c = counts[logins.len() - 1];
        match person_of(accounts, logins.last()) {
            Some(p) => m2.insert(p, with_pull_requests(stats_get(m2, p), c.0, c.1)),
            None => m2,
        }
    }
}

pub open spec fn assignee_total(issues: Seq<IssueMetadata>) -> nat {
    nat_sum(issues.map_values(|i: IssueMetadata| i.assignees@.len()))
}

pub open spec fn pr_total(counts: Seq<(usize, u64)>) -> nat {
    nat_sum(counts.map_values(|c: (usize, u64)| c.0 as nat))
}

pub open spec fn note_total(counts: Seq<(usize, u64)>) -> nat {
    nat_sum(counts.map_values(|c: (usize, u64)| c.1 as nat))
}

/// Every entry of `m` within the given bounds, with no lines attributed.
pub open spec fn bounded(
    m: Map<Seq<char>, IndividualStats>,
    opened: nat,
    completed: nat,
    merged: nat,
    notes: nat,
) -> bool {
    forall|k: Seq<char>|
        #[trigger] m.contains_key(k) ==> {
            &&& m[k].bugs_reported + m[k].issues_opened <= opened
            &&& m[k].issues_completed <= completed
            &&& m[k].merged_merge_requests_opened <= merged
            &&& m[k].merge_request_notes <= notes
            &&& m[k].lines_contributed == 0
        }
}

/// The position of the entry of `person`, which is added with zero
/// statistics where it is missing.
fn entry_for(stats: &mut StrMap<IndividualStats>, person: &String) -> (r: usize)
    requires
        old(stats).wf(),
    ensures
        final(stats).wf(),
        r < final(stats).key_seq().len(),
        final(stats).key_seq()[r as int] == person@,
        final(stats).val_seq()[r as int] == stats_get(old(stats)@, person@),
        final(stats).val_seq() == old(stats).val_seq() || final(stats).val_seq() == old(
            stats,
        ).val_seq().push(zero_stats()),
        final(stats)@ == (if old(stats)@.contains_key(person@) {
            old(stats)@
        } else {
            old(stats)@.insert(person@, zero_stats())
        }),
{
    match stats.find(person) {
        Some(i) => {
            proof {
                stats.lemma_view_index(i as int);
            }
            i
        },
        None => {
            let n = stats.len();
            stats.push_new(person.clone(), IndividualStats::default());
            n
        },
    }
}

fn bump_opened(stats: &mut StrMap<IndividualStats>, person: &String, is_bug: bool)
    requires
        old(stats).wf(),
        stats_get(old(stats)@, person@).bugs_reported + stats_get(old(stats)@, person@).issues_opened
            < usize::MAX,
    ensures
        final(stats).wf(),
        final(stats)@ == old(stats)@.insert(
            person@,
            with_opened(stats_get(old(stats)@, person@), is_bug),
        ),
{
    let i = entry_for(stats, person);
    let s = *stats.value_at(i);
    let t = if is_bug {
        IndividualStats { bugs_reported: s.bugs_reported + 1, ..s }
    } else {
        IndividualStats { issues_opened: s.issues_opened + 1, ..s }
    };
    stats.set_value(i, t);
    assert(stats@ =~= old(stats)@.insert(person@, t));
}

fn bump_completed(stats: &mut StrMap<IndividualStats>, person: &String)
    requires
        old(stats).wf(),
        stats_get(old(stats)@, person@).issues_completed < usize::MAX,
    ensures
        final(stats).wf(),
        final(stats)@ == old(stats)@.insert(person@, with_completed(stats_get(old(stats)@, person@))),
{
    let i = entry_for(stats, person);
    let s = *stats.value_at(i);
    let t = IndividualStats { issues_completed: s.issues_completed + 1, ..s };
    stats.set_value(i, t);
    assert(stats@ =~= old(stats)@.insert(person@, t));
}

fn add_pull_requests(stats: &mut StrMap<IndividualStats>, person: &String, n: usize, notes: u64)
    requires
        old(stats).wf(),
        stats_get(old(stats)@, person@).merged_merge_requests_opened + n <= usize::MAX,
        stats_get(old(stats)@, person@).merge_request_notes + notes <= u64::MAX,
    ensures
        final(stats).wf(),
        final(stats)@ == old(stats)@.insert(
            person@,
            with_pull_requests(stats_get(old(stats)@, person@), n, notes),
        ),
{
    let i = entry_for(stats, person);
    let s = *stats.value_at(i);
    let t = IndividualStats {
        merged_merge_requests_opened: s.merged_merge_requests_opened + n,
        merge_request_notes: s.merge_request_notes + notes,
        ..s
    };
    stats.set_value(i, t);
    assert(stats@ =~= old(stats)@.insert(person@, t));
}

/// Whether one of `labels` reads `bug`.
fn is_bug(labels: &Vec<String>) -> (r: bool)
    ensures
        r == has_label(labels@, "bug"@),
{
    let bug = String::from_str("bug");
    let mut i: usize = 0;
    while i < labels.len()
        invariant
            i <= labels@.len(),
            bug@ == "bug"@,
            forall|j: int| 0 <= j < i ==> labels@[j]@ != "bug"@,
        decreases labels@.len() - i,
    {
        if labels[i] == bug {
            return true;
        }
        i = i + 1;
    }
    false
}

/// Per-person statistics over the window `[since, asof)` (seconds since
/// the Unix epoch): issues opened (bugs apart), issues completed, merged
/// pull requests and their comments. `pull_requests` holds, per login, the
/// number of merged pull requests and their comments; `account_map` maps
/// tracker logins to persons, and activity of unmapped logins is left out.
/// Each mapped assignee of an issue closed in the window is credited one
/// whole completed issue (no `1/N` split; that choice is open).
pub fn individual_stats(
    issues: &Vec<IssueMetadata>,
    pull_requests: &StrMap<(usize, u64)>,
    account_map: &StrMap<String>,
    since: i64,
    asof: i64,
) -> (r: StrMap<IndividualStats>)
    requires
        pull_requests.wf(),
        account_map.wf(),
        assignee_total(issues@) <= usize::MAX,
        pr_total(pull_requests.val_seq()) <= usize::MAX,
        note_total(pull_requests.val_seq()) <= u64::MAX,
    ensures
        r.wf(),
        r@ == pull_requests_tally(
            issues_tally(Map::empty(), issues@, account_map@, since as int, asof as int),
            pull_requests.key_seq(),
            pull_requests.val_seq(),
            account_map@,
        ),
        forall|k: Seq<char>| #[trigger] r@.contains_key(k) ==> r@[k].lines_contributed == 0,
        lines_sum(r.val_seq()) == 0,
{
    let ghost acct = account_map@;
    let ghost lo = since as int;
    let ghost hi = asof as int;
    let mut stats: StrMap<IndividualStats> = StrMap::new();
    let n = issues.len();
    let mut i: usize = 0;
    assert(issues@.take(0) =~= Seq::<IssueMetadata>::empty());
    assert(issues@.take(0).map_values(|x: IssueMetadata| x.assignees@.len()) =~= Seq::<nat>::empty());
    while i < n
        invariant
            stats.wf(),
            account_map.wf(),
            acct == account_map@,
            lo == since as int,
            hi == asof as int,
            n == issues@.len(),
            i <= n,
            stats@ == issues_tally(Map::empty(), issues@.take(i as int), acct, lo, hi),
            bounded(stats@, i as nat, assignee_total(issues@.take(i as int)), 0, 0),
            assignee_total(issues@) <= usize::MAX,
        decreases n - i,
    {
        let issue = &issues[i];
        let ghost m0 = stats@;
        let ghost before = assignee_total(issues@.take(i as int));
        proof {
            let f = |x: IssueMetadata| x.assignees@.len();
            assert(issues@.take(i + 1).map_values(f).drop_last() =~= issues@.take(i as int).map_values(f));
            assert(issues@.take(i + 1).map_values(f) =~= issues@.map_values(f).take(i + 1));
            lemma_nat_sum_take(issues@.map_values(f), i + 1);
            assert(issues@.take(i + 1).drop_last() =~= issues@.take(i as int));
        }
        if crate::blame::in_window(issue.created_at, since, asof) {
            match account_map.get(&issue.author) {
                Some(p) => {
                    let bug = is_bug(&issue.labels);
                    bump_opened(&mut stats, p, bug);
                },
                None => {},
            }
        }
        let ghost m1 = stats@;
        assert(bounded(m1, (i + 1) as nat, before, 0, 0));
        match issue.closed_at {
            Some(c) => {
                if crate::blame::in_window(c, since, asof) {
                    let k = issue.assignees.len();
                    let mut j: usize = 0;
                    assert(issue.assignees@.take(0) =~= Seq::<String>::empty());
                    while j < k
                        invariant
                            stats.wf(),
                            account_map.wf(),
                            acct == account_map@,
                            k == issue.assignees@.len(),
                            j <= k,
                            stats@ == credit_completed(m1, issue.assignees@.take(j as int), acct),
                            bounded(stats@, (i + 1) as nat, (before + j) as nat, 0, 0),
                            before + k <= usize::MAX,
                        decreases k - j,
                    {
                        assert(issue.assignees@.take(j + 1).drop_last() =~= issue.assignees@.take(
                            j as int,
                        ));
                        match account_map.get(&issue.assignees[j]) {
                            Some(p) => bump_completed(&mut stats, p),
                            None => {},
                        }
                        j = j + 1;
                    }
                    assert(issue.assignees@.take(k as int) =~= issue.assignees@);
                }
            },
            None => {},
        }
        assert(stats@ == issue_step(m0, issues@[i as int], acct, lo, hi));
        i = i + 1;
    }
    assert(issues@.take(n as int) =~= issues@);
    let ghost issue_stats = stats@;
    let ghost keys = pull_requests.key_seq();
    let ghost vals = pull_requests.val_seq();
    let m = pull_requests.len();
    let mut j: usize = 0;
    assert(vals.take(0).map_values(|c: (usize, u64)| c.0 as nat) =~= Seq::<nat>::empty());
    assert(vals.take(0).map_values(|c: (usize, u64)| c.1 as nat) =~= Seq::<nat>::empty());
    while j < m
        invariant
            stats.wf(),
            account_map.wf(),
            pull_requests.wf(),
            acct == account_map@,
            keys == pull_requests.key_seq(),
            vals == pull_requests.val_seq(),
            m == keys.len(),
            j <= m,
            stats@ == pull_requests_tally(issue_stats, keys.take(j as int), vals.take(j as int), acct),
            bounded(stats@, n as nat, assignee_total(issues@), pr_total(vals.take(j as int)), note_total(vals.take(j as int))),
            pr_total(vals) <= usize::MAX,
            note_total(vals) <= u64::MAX,
        decreases m - j,
    {
        let login = pull_requests.key_at(j);
        let c = *pull_requests.value_at(j);
        proof {
            let f = |c: (usize, u64)| c.0 as nat;
            let g = |c: (usize, u64)| c.1 as nat;
            assert(vals.take(j + 1).map_values(f).drop_last() =~= vals.take(j as int).map_values(f));
            assert(vals.take(j + 1).map_values(g).drop_last() =~= vals.take(j as int).map_values(g));
            assert(vals.take(j + 1).map_values(f) =~= vals.map_values(f).take(j + 1));
            assert(vals.take(j + 1).map_values(g) =~= vals.map_values(g).take(j + 1));
            lemma_nat_sum_take(vals.map_values(f), j + 1);
            lemma_nat_sum_take(vals.map_values(g), j + 1);
            assert(keys.take(j + 1).drop_last() =~= keys.take(j as int));
            assert(vals.take(j + 1).take(j as int) =~= vals.take(j as int));
        }
        match account_map.get(login) {
            Some(p) => add_pull_requests(&mut stats, p, c.0, c.1),
            None => {},
        }
        j = j + 1;
    }
    assert(keys.take(m as int) =~= keys);
    assert(vals.take(m as int) =~= vals);
    proof {
        let f = |s: IndividualStats| s.lines_contributed as nat;
        assert forall|q: int| 0 <= q < stats.val_seq().len() implies #[trigger] stats.val_seq().map_values(f)[q] == 0 by {
            stats.lemma_view_index(q);
        }
        lemma_nat_sum_zero(stats.val_seq().map_values(f));
    }
    stats
}

proof fn lemma_nat_sum_zero(s: Seq<nat>)
    requires
        forall|i: int| 0 <= i < s.len() ==> s[i] == 0,
    ensures
        nat_sum(s) == 0,
    decreases s.len(),
{
    if s.len() > 0 {
        lemma_nat_sum_zero(s.drop_last());
    }
}

/// The lines attributed across a sequence of statistics.
pub open spec fn lines_sum(vals: Seq<IndividualStats>) -> nat {
    nat_sum(vals.map_values(|s: IndividualStats| s.lines_contributed as nat))
}

/// The statistics `m` with the lines of each email (`emails` and `counts`,
/// position for position) credited to the person that `email_map` maps it
/// to.
pub open spec fn attributed(
    m: Map<Seq<char>, IndividualStats>,
    emails: Seq<Seq<char>>,
    counts: Seq<nat>,
    email_map: Map<Seq<char>, String>,
) -> Map<Seq<char>, IndividualStats>
    decreases emails.len(),
{
    if emails.len() == 0 {
        m
    } else {
        let m2 = attributed(m, emails.drop_last(), counts.take(emails.len() - 1), email_map);
        match person_of(email_map, emails.last()) {
            Some(p) => m2.insert(p, with_lines(stats_get(m2, p), counts[emails.len() - 1])),
            None => m2,
        }
    }
}

/// The emails that `email_map` does not map, with their counts, in order.
pub open spec fn unmapped(
    emails: Seq<Seq<char>>,
    counts: Seq<nat>,
    email_map: Map<Seq<char>, String>,
) -> Seq<(Seq<char>, nat)>
    decreases emails.len(),
{
    if emails.len() == 0 {
        Seq::empty()
    } else {
        let u = unmapped(emails.drop_last(), counts.take(emails.len() - 1), email_map);
        if email_map.contains_key(emails.last()) {
            u
        } else {
            u.push((emails.last(), counts[emails.len() - 1]))
        }
    }
}

pub open spec fn pair_view(e: (String, usize)) -> (Seq<char>, nat) {
    (e.0@, e.1 as nat)
}

pub open spec fn pair_count(e: (Seq<char>, nat)) -> nat {
    e.1
}

/// Credits the lines of each email of `total_loc` that `email_map` maps
/// to its person, and returns the others with their counts, in order. No
/// line is lost or counted twice: the lines credited and the lines returned
/// add up to the total of `total_loc`.
pub fn attribute_lines(
    stats: &mut StrMap<IndividualStats>,
    total_loc: &LineCounts,
    email_map: &StrMap<String>,
) -> (r: Vec<(String, usize)>)
    requires
        old(stats).wf(),
        total_loc.wf(),
        email_map.wf(),
        lines_sum(old(stats).val_seq()) + total_loc.spec_total() <= usize::MAX,
    ensures
        final(stats).wf(),
        final(stats)@ == attributed(
            old(stats)@,
            total_loc.email_seq(),
            total_loc.count_seq(),
            email_map@,
        ),
        r@.map_values(|e: (String, usize)| pair_view(e)) == unmapped(
            total_loc.email_seq(),
            total_loc.count_seq(),
            email_map@,
        ),
        lines_sum(final(stats).val_seq()) + nat_sum(
            unmapped(total_loc.email_seq(), total_loc.count_seq(), email_map@).map_values(
                |e: (Seq<char>, nat)| pair_count(e),
            ),
        ) == lines_sum(old(stats).val_seq()) + total_loc.spec_total(),
{
    let ghost emails = total_loc.email_seq();
    let ghost counts = total_loc.count_seq();
    let ghost start = stats@;
    let ghost start_sum = lines_sum(stats.val_seq());
    let ghost emap = email_map@;
    proof {
        total_loc.lemma_shape();
    }
    let mut others: Vec<(String, usize)> = Vec::new();
    let n = total_loc.len();
    let mut i: usize = 0;
    assert(counts.take(0) =~= Seq::<nat>::empty());
    assert(emails.take(0) =~= Seq::<Seq<char>>::empty());
    while i < n
        invariant
            stats.wf(),
            total_loc.wf(),
            email_map.wf(),
            emap == email_map@,
            emails == total_loc.email_seq(),
            counts == total_loc.count_seq(),
            emails.len() == counts.len(),
            n == emails.len(),
            i <= n,
            total_loc.spec_total() == nat_sum(counts),
            start_sum + total_loc.spec_total() <= usize::MAX,
            stats@ == attributed(start, emails.take(i as int), counts.take(i as int), emap),
            others@.map_values(|e: (String, usize)| pair_view(e)) == unmapped(
                emails.take(i as int),
                counts.take(i as int),
                emap,
            ),
            lines_sum(stats.val_seq()) + nat_sum(
                unmapped(emails.take(i as int), counts.take(i as int), emap).map_values(
                    |e: (Seq<char>, nat)| pair_count(e),
                ),
            ) == start_sum + nat_sum(counts.take(i as int)),
        decreases n - i,
    {
        let email = total_loc.email_at(i);
        let c = total_loc.count_at(i);
        let ghost u0 = unmapped(emails.take(i as int), counts.take(i as int), emap);
        let ghost sum0 = lines_sum(stats.val_seq());
        proof {
            assert(emails.take(i + 1).drop_last() =~= emails.take(i as int));
            assert(counts.take(i + 1).take(i as int) =~= counts.take(i as int));
            assert(counts.take(i + 1).drop_last() =~= counts.take(i as int));
            lemma_nat_sum_take(counts, i + 1);
        }
        match email_map.get(email) {
            Some(p) => {
                let ghost pre = stats.val_seq();
                let k = entry_for(stats, p);
                let ghost mid = stats.val_seq();
                let ghost f = |s: IndividualStats| s.lines_contributed as nat;
                proof {
                    assert(lines_sum(mid) == sum0) by {
                        if mid != pre {
                            assert(mid.map_values(f).drop_last() =~= pre.map_values(f));
                        }
                    }
                }
                let s = *stats.value_at(k);
                proof {
                    lemma_nat_sum_update(mid.map_values(f), k as int, 0);
                }
                let t = IndividualStats { lines_contributed: s.lines_contributed + c, ..s };
                stats.set_value(k, t);
                proof {
                    assert(stats.val_seq().map_values(f) =~= mid.map_values(f).update(k as int, t.lines_contributed as nat));
                    lemma_nat_sum_update(mid.map_values(f), k as int, t.lines_contributed as nat);
                }
                assert(stats@ =~= attributed(start, emails.take(i + 1), counts.take(i + 1), emap));
            },
            None => {
                others.push((email.clone(), c));
                proof {
                    let g = |e: (Seq<char>, nat)| pair_count(e);
                    assert(u0.push((emails[i as int], counts[i as int])).map_values(g) =~= u0.map_values(g).push(counts[i as int]));
                    assert(u0.map_values(g).push(counts[i as int]).drop_last() =~= u0.map_values(g));
                }
                assert(others@.map_values(|e: (String, usize)| pair_view(e)) =~= unmapped(
                    emails.take(i + 1),
                    counts.take(i + 1),
                    emap,
                ));
            },
        }
        i = i + 1;
    }
    assert(emails.take(n as int) =~= emails);
    assert(counts.take(n as int) =~= counts);
    others
}

} // verus!
