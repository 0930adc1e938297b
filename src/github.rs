//! Items of the issue tracker that the report lists.

use vstd::prelude::*;
use crate::blame::{find_char, find_from};
use crate::text::{chars_of, string_from};
use crate::counts::{nat_sum, lemma_nat_sum_take, lemma_nat_sum_update};
use crate::issue::{pr_total, note_total};
use crate::table::StrMap;

verus! {

/// An open issue with its assignees.
pub struct Issue {
    pub title: String,
    pub number: i64,
    pub repo: String,
    pub assignees: Vec<String>,
}

/// An open pull request, with the logins asked to look at it and its assignees.
pub struct PullRequest {
    pub title: String,
    pub number: i64,
    pub repo: String,
    pub reviewers: Vec<String>,
    pub assignees: Vec<String>,
}

/// The seconds in one day.
pub const DAY_SECONDS: i64 = 86400;

/// Whether an assigned issue last updated at `updated_at` has gone without
/// an update for at least a day before `asof` (seconds since the Unix epoch).
pub fn is_stale(updated_at: i64, asof: i64) -> (r: bool)
    ensures
        r == (updated_at as int <= asof as int - DAY_SECONDS),
{
    if asof < i64::MIN + DAY_SECONDS {
        false
    } else {
        updated_at <= asof - DAY_SECONDS
    }
}

/// Splits a repository name `owner/name` at its first `/`; `None` where it
/// holds no `/`.
pub fn split_repository(repo: &str) -> (r: Option<(String, String)>)
    ensures
        match find_from(repo@, '/', 0) {
            Some(i) => r matches Some(p) && p.0@ == repo@.subrange(0, i) && p.1@ == repo@.subrange(
                i + 1,
                repo@.len() as int,
            ),
            None => r is None,
        },
{
    let cs = chars_of(repo);
    let n = cs.len();
    match find_char(&cs, '/', 0) {
        Some(i) => Some((string_from(&cs, 0, i), string_from(&cs, i + 1, n))),
        None => None,
    }
}

/// A merged pull request: its author's login where it has one, when it was
/// created (seconds since the Unix epoch), and its number of comments.
pub struct MergedPullRequest {
    pub author: Option<String>,
    pub created_at: i64,
    pub comments: u64,
}

/// `m` with one more merged pull request, carrying `comments` comments, for
/// `login`.
pub open spec fn add_merged(m: Map<Seq<char>, (usize, u64)>, login: Seq<char>, comments: u64) -> Map<
    Seq<char>,
    (usize, u64),
> {
    let c = if m.contains_key(login) {
        m[login]
    } else {
        (0usize, 0u64)
    };
    m.insert(login, ((c.0 + 1) as usize, (c.1 + comments) as u64))
}

/// The per-login counts of merged pull requests, newest first: those
/// without an author are passed over, and the first one created before
/// `since` ends the count.
pub open spec fn merged_tally(
    m: Map<Seq<char>, (usize, u64)>,
    prs: Seq<MergedPullRequest>,
    since: int,
) -> Map<Seq<char>, (usize, u64)>
    decreases prs.len(),
{
    if prs.len() == 0 {
        m
    } else {
        match prs[0].author {
            None => merged_tally(m, prs.drop_first(), since),
            Some(a) => if (prs[0].created_at as int) < since {
                m
            } else {
                merged_tally(add_merged(m, a@, prs[0].comments), prs.drop_first(), since)
            },
        }
    }
}

pub open spec fn comment_total(prs: Seq<MergedPullRequest>) -> nat {
    nat_sum(prs.map_values(|p: MergedPullRequest| p.comments as nat))
}

/// Adds to `counts`, per author login, the merged pull requests of one
/// repository (newest first) and their comments, down to the first one
/// created before `since`.
pub fn tally_merged_pull_requests(
    counts: &mut StrMap<(usize, u64)>,
    prs: &Vec<MergedPullRequest>,
    since: i64,
)
    requires
        old(counts).wf(),
        pr_total(old(counts).val_seq()) + prs@.len() <= usize::MAX,
        note_total(old(counts).val_seq()) + comment_total(prs@) <= u64::MAX,
    ensures
        final(counts).wf(),
        final(counts)@ == merged_tally(old(counts)@, prs@, since as int),
        pr_total(final(counts).val_seq()) <= pr_total(old(counts).val_seq()) + prs@.len(),
        note_total(final(counts).val_seq()) <= note_total(old(counts).val_seq()) + comment_total(
            prs@,
        ),
{
    let ghost p0 = pr_total(counts.val_seq());
    let ghost n0 = note_total(counts.val_seq());
    let ghost f = |c: (usize, u64)| c.0 as nat;
    let ghost g = |c: (usize, u64)| c.1 as nat;
    let ghost h = |p: MergedPullRequest| p.comments as nat;
    let n = prs.len();
    let mut i: usize = 0;
    assert(prs@.skip(0) =~= prs@);
    assert(prs@.take(0).map_values(h) =~= Seq::<nat>::empty());
    while i < n
        invariant
            counts.wf(),
            n == prs@.len(),
            i <= n,
            p0 == pr_total(old(counts).val_seq()),
            n0 == note_total(old(counts).val_seq()),
            p0 + n <= usize::MAX,
            n0 + comment_total(prs@) <= u64::MAX,
            f == (|c: (usize, u64)| c.0 as nat),
            g == (|c: (usize, u64)| c.1 as nat),
            h == (|p: MergedPullRequest| p.comments as nat),
            merged_tally(old(counts)@, prs@, since as int) == merged_tally(
                counts@,
                prs@.skip(i as int),
                since as int,
            ),
            pr_total(counts.val_seq()) <= p0 + i,
            note_total(counts.val_seq()) <= n0 + nat_sum(prs@.take(i as int).map_values(h)),
        decreases n - i,
    {
        let pr = &prs[i];
        proof {
            assert(prs@.skip(i as int)[0] == prs@[i as int]);
            assert(prs@.skip(i as int).drop_first() =~= prs@.skip(i + 1));
            assert(prs@.take(i + 1).map_values(h).drop_last() =~= prs@.take(i as int).map_values(h));
            assert(prs@.take(i + 1).map_values(h) =~= prs@.map_values(h).take(i + 1));
            lemma_nat_sum_take(prs@.map_values(h), i + 1);
        }
        match &pr.author {
            None => {},
            Some(login) => {
                if pr.created_at < since {
                    return;
                }
                let ghost vals = counts.val_seq();
                match counts.find(login) {
                    Some(k) => {
                        let c = *counts.value_at(k);
                        proof {
                            counts.lemma_view_index(k as int);
                            assert(vals.map_values(f)[k as int] == c.0 as nat);
                            assert(vals.map_values(g)[k as int] == c.1 as nat);
                            lemma_nat_sum_update(vals.map_values(f), k as int, 0);
                            lemma_nat_sum_update(vals.map_values(g), k as int, 0);
                        }
                        let d = (c.0 + 1, c.1 + pr.comments);
                        counts.set_value(k, d);
                        proof {
                            assert(counts.val_seq().map_values(f) =~= vals.map_values(f).update(k as int, d.0 as nat));
                            assert(counts.val_seq().map_values(g) =~= vals.map_values(g).update(k as int, d.1 as nat));
                            lemma_nat_sum_update(vals.map_values(f), k as int, d.0 as nat);
                            lemma_nat_sum_update(vals.map_values(g), k as int, d.1 as nat);
                        }
                    },
                    None => {
                        counts.push_new(login.clone(), (1, pr.comments));
                        proof {
                            assert(counts.val_seq().map_values(f).drop_last() =~= vals.map_values(f));
                            assert(counts.val_seq().map_values(g).drop_last() =~= vals.map_values(g));
                        }
                    },
                }
            },
        }
        i = i + 1;
    }
    assert(prs@.take(n as int) =~= prs@);
    assert(prs@.skip(n as int) =~= Seq::<MergedPullRequest>::empty());
}

} // verus!
