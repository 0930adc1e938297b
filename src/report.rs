//! The sections of the HTML report that list open work and unmapped
//! identities.

use vstd::prelude::*;
use crate::counts::LineCounts;
use crate::github::{Issue, PullRequest};
use crate::issue::unmapped;
use crate::table::StrMap;
use crate::text::{append_decimal, append_signed, append_str, chars_of, decimal, signed_decimal};

verus! {

/// The settings of the issue tracker: an access token per repository
/// owner, the repositories (`owner/name`), and a map from tracker logins to
/// persons.
pub struct GithubConfig {
    pub token: StrMap<String>,
    pub repositories: Vec<String>,
    pub account: StrMap<String>,
}

/// The seconds in the 90 days that the statistics cover.
pub const QUARTER_SECONDS: i64 = 7776000;

/// The start of the statistics window ending at `asof`: 90 days before
/// it, or `epoch` where that is later (seconds since the Unix epoch).
pub fn report_since(asof: i64, epoch: Option<i64>) -> (r: i64)
    requires
        asof - QUARTER_SECONDS >= i64::MIN,
    ensures
        r == match epoch {
            Some(e) => if e > asof - QUARTER_SECONDS {
                e as int
            } else {
                asof - QUARTER_SECONDS
            },
            None => asof - QUARTER_SECONDS,
        },
{
    let quarter_ago = asof - QUARTER_SECONDS;
    match epoch {
        Some(e) => if e > quarter_ago {
            e
        } else {
            quarter_ago
        },
        None => quarter_ago,
    }
}

/// The name shown for `login`: its person where `accounts` maps it, else
/// the login itself.
pub open spec fn name_of(accounts: Map<Seq<char>, String>, login: Seq<char>) -> Seq<char> {
    if accounts.contains_key(login) {
        accounts[login]@
    } else {
        login
    }
}

/// ` @name` for each login, in order.
pub open spec fn mentions(logins: Seq<String>, accounts: Map<Seq<char>, String>) -> Seq<char>
    decreases logins.len(),
{
    if logins.len() == 0 {
        Seq::empty()
    } else {
        mentions(logins.drop_last(), accounts) + " @"@ + name_of(accounts, logins.last()@)
    }
}

/// Whether a title marks its pull request as work in progress.
pub open spec fn is_wip(title: Seq<char>) -> bool {
    &&& title.len() >= 5
    &&& title[0] == '['
    &&& title[1] == 'W'
    &&& title[2] == 'I'
    &&& title[3] == 'P'
    &&& title[4] == ']'
}

/// A link to the item `kind` (`pull` or `issues`) numbered `number` of `repo`.
pub open spec fn item_link(repo: Seq<char>, kind: Seq<char>, number: i64, title: Seq<char>) -> Seq<
    char,
> {
    "<li><a href=\"https://github.com/petabi/"@ + repo + "/"@ + kind + "/"@ + signed_decimal(
        number as int,
    ) + "\">"@ + repo + "#"@ + signed_decimal(number as int) + "</a> "@ + title
}

pub open spec fn pull_request_item(pr: PullRequest, accounts: Map<Seq<char>, String>) -> Seq<char> {
    item_link(pr.repo@, "pull"@, pr.number, pr.title@) + mentions(pr.reviewers@, accounts)
        + mentions(pr.assignees@, accounts)
}

pub open spec fn pull_request_items(prs: Seq<PullRequest>, accounts: Map<Seq<char>, String>) -> Seq<
    char,
>
    decreases prs.len(),
{
    if prs.len() == 0 {
        Seq::empty()
    } else {
        pull_request_items(prs.drop_last(), accounts) + if is_wip(prs.last().title@) {
            Seq::empty()
        } else {
            pull_request_item(prs.last(), accounts)
        }
    }
}

/// The section of the pull requests under review (those not marked
/// `[WIP]`); empty where there are none.
pub open spec fn pull_request_section(prs: Seq<PullRequest>, accounts: Map<Seq<char>, String>) -> Seq<
    char,
> {
    if forall|i: int| 0 <= i < prs.len() ==> is_wip(#[trigger] prs[i].title@) {
        Seq::empty()
    } else {
        "<h2>Pull Requests Under Review</h2>\n<ul>"@ + pull_request_items(prs, accounts)
            + "</ul>\n"@
    }
}

pub open spec fn issue_items(issues: Seq<Issue>, accounts: Map<Seq<char>, String>) -> Seq<char>
    decreases issues.len(),
{
    if issues.len() == 0 {
        Seq::empty()
    } else {
        let i = issues.last();
        issue_items(issues.drop_last(), accounts) + item_link(i.repo@, "issues"@, i.number, i.title@)
            + mentions(i.assignees@, accounts) + "\n"@
    }
}

/// The section of the assigned issues without a recent update.
pub open spec fn issues_section(issues: Seq<Issue>, accounts: Map<Seq<char>, String>) -> Seq<char> {
    "<h2>Assigned Issues with No Update in Past 24 Hours</h2>\n<ul>"@ + issue_items(issues, accounts)
        + "</ul>\n"@
}

pub open spec fn unknown_items(u: Seq<(Seq<char>, nat)>) -> Seq<char>
    decreases u.len(),
{
    if u.len() == 0 {
        Seq::empty()
    } else {
        unknown_items(u.drop_last()) + "<li>"@ + u.last().0 + ": "@ + decimal(u.last().1)
            + " lines contributed\n"@
    }
}

/// The section of the emails that no person is mapped to, with their line
/// counts; empty where every email is mapped.
pub open spec fn unknown_section(u: Seq<(Seq<char>, nat)>) -> Seq<char> {
    if u.len() == 0 {
        Seq::empty()
    } else {
        "\n<h2>Other emails in commits</h2>\n<ul>\n"@ + unknown_items(u) + "</ul>\n"@
    }
}

fn append_mentions(out: &mut String, logins: &Vec<String>, accounts: &StrMap<String>)
    requires
        accounts.wf(),
    ensures
        final(out)@ == old(out)@ + mentions(logins@, accounts@),
{
    let mut i: usize = 0;
    assert(logins@.take(0) =~= Seq::<String>::empty());
    while i < logins.len()
        invariant
            accounts.wf(),
            i <= logins@.len(),
            out@ == old(out)@ + mentions(logins@.take(i as int), accounts@),
        decreases logins@.len() - i,
    {
        let login = &logins[i];
        append_str(out, " @");
        match accounts.get(login) {
            Some(name) => append_str(out, name.as_str()),
            None => append_str(out, login.as_str()),
        }
        assert(logins@.take(i + 1).drop_last() =~= logins@.take(i as int));
        assert(out@ =~= old(out)@ + mentions(logins@.take(i + 1), accounts@));
        i = i + 1;
    }
    assert(logins@.take(i as int) =~= logins@);
}

fn append_item_link(out: &mut String, repo: &String, kind: &str, number: i64, title: &String)
    ensures
        final(out)@ == old(out)@ + item_link(repo@, kind@, number, title@),
{
    append_str(out, "<li><a href=\"https://github.com/petabi/");
    append_str(out, repo.as_str());
    append_str(out, "/");
    append_str(out, kind);
    append_str(out, "/");
    append_signed(out, number);
    append_str(out, "\">");
    append_str(out, repo.as_str());
    append_str(out, "#");
    append_signed(out, number);
    append_str(out, "</a> ");
    append_str(out, title.as_str());
    assert(out@ =~= old(out)@ + item_link(repo@, kind@, number, title@));
}

fn title_is_wip(title: &String) -> (r: bool)
    ensures
        r == is_wip(title@),
{
    let cs = chars_of(title.as_str());
    cs.len() >= 5 && cs[0] == '[' && cs[1] == 'W' && cs[2] == 'I' && cs[3] == 'P' && cs[4] == ']'
}

/// The section of the pull requests under review: each one not marked
/// `[WIP]`, linked, followed by the logins asked to look at it and its assignees, under the names that
/// `account_map` gives them. Empty where every pull request is marked.
pub fn write_pull_request_section(pull_requests: &Vec<PullRequest>, account_map: &StrMap<String>) -> (r:
    String)
    requires
        account_map.wf(),
    ensures
        r@ == pull_request_section(pull_requests@, account_map@),
{
    let mut items = String::new();
    let mut any = false;
    let mut i: usize = 0;
    assert(pull_requests@.take(0) =~= Seq::<PullRequest>::empty());
    while i < pull_requests.len()
        invariant
            account_map.wf(),
            i <= pull_requests@.len(),
            items@ == pull_request_items(pull_requests@.take(i as int), account_map@),
            any == exists|j: int| 0 <= j < i && !is_wip(#[trigger] pull_requests@[j].title@),
        decreases pull_requests@.len() - i,
    {
        let pr = &pull_requests[i];
        let ghost before = items@;
        assert(pull_requests@.take(i + 1).drop_last() =~= pull_requests@.take(i as int));
        if !title_is_wip(&pr.title) {
            append_item_link(&mut items, &pr.repo, "pull", pr.number, &pr.title);
            append_mentions(&mut items, &pr.reviewers, account_map);
            append_mentions(&mut items, &pr.assignees, account_map);
            assert(items@ =~= before + pull_request_item(*pr, account_map@));
            any = true;
        } else {
            assert(items@ =~= before + Seq::<char>::empty());
        }
        i = i + 1;
    }
    assert(pull_requests@.take(i as int) =~= pull_requests@);
    if !any {
        return String::new();
    }
    let mut out = String::new();
    append_str(&mut out, "<h2>Pull Requests Under Review</h2>\n<ul>");
    append_str(&mut out, items.as_str());
    append_str(&mut out, "</ul>\n");
    out
}

/// The section of the assigned issues without a recent update: each one
/// linked, with its assignees under the names that `account_map` gives them.
pub fn write_issues_section(github_issues: &Vec<Issue>, account_map: &StrMap<String>) -> (r: String)
    requires
        account_map.wf(),
    ensures
        r@ == issues_section(github_issues@, account_map@),
{
    let mut out = String::new();
    append_str(&mut out, "<h2>Assigned Issues with No Update in Past 24 Hours</h2>\n<ul>");
    let ghost head = out@;
    let mut i: usize = 0;
    assert(github_issues@.take(0) =~= Seq::<Issue>::empty());
    assert(out@ =~= head + issue_items(github_issues@.take(0), account_map@));
    while i < github_issues.len()
        invariant
            account_map.wf(),
            i <= github_issues@.len(),
            out@ == head + issue_items(github_issues@.take(i as int), account_map@),
        decreases github_issues@.len() - i,
    {
        let issue = &github_issues[i];
        assert(github_issues@.take(i + 1).drop_last() =~= github_issues@.take(i as int));
        append_item_link(&mut out, &issue.repo, "issues", issue.number, &issue.title);
        append_mentions(&mut out, &issue.assignees, account_map);
        append_str(&mut out, "\n");
        assert(out@ =~= head + issue_items(github_issues@.take(i + 1), account_map@));
        i = i + 1;
    }
    assert(github_issues@.take(i as int) =~= github_issues@);
    append_str(&mut out, "</ul>\n");
    assert(out@ =~= issues_section(github_issues@, account_map@));
    out
}

/// The section of the emails of `total_loc` that `email_map` maps to no
/// person, each with its line count, in order; empty where there are none.
pub fn print_unknown_emails(total_loc: &LineCounts, email_map: &StrMap<String>) -> (r: String)
    requires
        total_loc.wf(),
        email_map.wf(),
    ensures
        r@ == unknown_section(unmapped(total_loc.email_seq(), total_loc.count_seq(), email_map@)),
{
    let ghost emails = total_loc.email_seq();
    let ghost counts = total_loc.count_seq();
    proof {
        total_loc.lemma_shape();
    }
    let mut items = String::new();
    let mut any = false;
    let n = total_loc.len();
    let mut i: usize = 0;
    assert(emails.take(0) =~= Seq::<Seq<char>>::empty());
    while i < n
        invariant
            total_loc.wf(),
            email_map.wf(),
            emails == total_loc.email_seq(),
            counts == total_loc.count_seq(),
            emails.len() == counts.len(),
            n == emails.len(),
            i <= n,
            items@ == unknown_items(unmapped(emails.take(i as int), counts.take(i as int), email_map@)),
            any == (unmapped(emails.take(i as int), counts.take(i as int), email_map@).len() > 0),
        decreases n - i,
    {
        let email = total_loc.email_at(i);
        let c = total_loc.count_at(i);
        let ghost u0 = unmapped(emails.take(i as int), counts.take(i as int), email_map@);
        assert(emails.take(i + 1).drop_last() =~= emails.take(i as int));
        assert(counts.take(i + 1).take(i as int) =~= counts.take(i as int));
        if !email_map.contains_key(email) {
            append_str(&mut items, "<li>");
            append_str(&mut items, email.as_str());
            append_str(&mut items, ": ");
            append_decimal(&mut items, c as u64);
            append_str(&mut items, " lines contributed\n");
            let ghost u1 = u0.push((emails[i as int], counts[i as int]));
            assert(u1.drop_last() =~= u0);
            assert(items@ =~= unknown_items(u1));
            any = true;
        }
        i = i + 1;
    }
    assert(emails.take(n as int) =~= emails);
    assert(counts.take(n as int) =~= counts);
    if !any {
        return String::new();
    }
    let mut out = String::new();
    append_str(&mut out, "\n<h2>Other emails in commits</h2>\n<ul>\n");
    append_str(&mut out, items.as_str());
    append_str(&mut out, "</ul>\n");
    out
}

} // verus!
