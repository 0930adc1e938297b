//! Parsing of line-attribution (blame) text into per-email line counts
//! within a time window.
//!
//! Each line of blame text carries the author email as `(<email>` and,
//! between the email and the closing `)` of the metadata block, a timestamp
//! in the form `YYYY-MM-DD HH:MM:SS +ZZZZ` followed by one more field (the
//! line number). A line is counted when its timestamp `t` satisfies
//! `since <= t < asof`. Lines that cannot be parsed are skipped and
//! reported as warnings; they never stop the parse.

use vstd::prelude::*;
use crate::counts::{LineCounts, add_count};
use crate::text::{chars_of, string_from};

verus! {

/// The instant, in seconds since the Unix epoch, that chrono reads from
/// `s` under the format `%F %T %z`; `None` where it reads none.
pub uninterp spec fn blame_time_of(s: Seq<char>) -> Option<int>;

#[verifier::external_type_specification]
#[verifier::external_body]
pub struct ExParseError(chrono::ParseError);

/// Relies on chrono's `DateTime::parse_from_str` with the format
/// `%F %T %z`, and on `DateTime::timestamp` for the seconds since the Unix
/// epoch of the instant read.
#[verifier::external_body]
fn parse_blame_time(s: &str) -> (r: Result<i64, chrono::ParseError>)
    ensures
        match r {
            Ok(t) => blame_time_of(s@) == Some(t as int),
            Err(_) => blame_time_of(s@) is None,
        },
{
    match chrono::DateTime::parse_from_str(s, "%F %T %z") {
        Ok(t) => Ok(t.timestamp()),
        Err(e) => Err(e),
    }
}

/// Why a line of blame text was skipped.
#[derive(Clone, Copy, Debug, PartialEq, Eq, Structural)]
pub enum WarningKind {
    /// The line holds no `(<`.
    MissingEmailStart,
    /// No `>` follows the `(<`.
    MissingEmailEnd,
    /// No `)` follows the email.
    MissingMetadataEnd,
    /// No space stands between the email and the `)`.
    MissingTimestampEnd,
    /// The timestamp field is not of the form `%F %T %z`.
    InvalidTimestamp,
}

/// A skipped line: its index among the lines of the text, why it was
/// skipped, and its text.
#[derive(Debug)]
pub struct ParseWarning {
    pub line: usize,
    pub kind: WarningKind,
    pub text: String,
}

/// The two fields read from one line of blame text.
#[derive(Debug)]
pub struct BlameFields {
    pub email: String,
    pub timestamp: String,
}

/// The first index at or after `from` where `s` holds `c`.
pub open spec fn find_from(s: Seq<char>, c: char, from: int) -> Option<int>
    decreases s.len() - from,
{
    if from >= s.len() {
        None
    } else if s[from] == c {
        Some(from)
    } else {
        find_from(s, c, from + 1)
    }
}

/// The first index at or after `from` where `s` holds `a` followed by `b`.
pub open spec fn find_pair_from(s: Seq<char>, a: char, b: char, from: int) -> Option<int>
    decreases s.len() - from,
{
    if from + 1 >= s.len() {
        None
    } else if s[from] == a && s[from + 1] == b {
        Some(from)
    } else {
        find_pair_from(s, a, b, from + 1)
    }
}

/// The last index in `lo..hi` where `s` holds `c`.
pub open spec fn rfind_between(s: Seq<char>, c: char, lo: int, hi: int) -> Option<int>
    decreases hi - lo,
{
    if hi <= lo {
        None
    } else if s[hi - 1] == c {
        Some(hi - 1)
    } else {
        rfind_between(s, c, lo, hi - 1)
    }
}

pub open spec fn is_blank(c: char) -> bool {
    c == ' ' || c == '\t' || c == '\n' || c == '\r' || c == '\x0B' || c == '\x0C'
}

pub open spec fn trim_start(s: Seq<char>) -> Seq<char>
    decreases s.len(),
{
    if s.len() > 0 && is_blank(s[0]) {
        trim_start(s.drop_first())
    } else {
        s
    }
}

pub open spec fn trim_end(s: Seq<char>) -> Seq<char>
    decreases s.len(),
{
    if s.len() > 0 && is_blank(s.last()) {
        trim_end(s.drop_last())
    } else {
        s
    }
}

/// `s` without its leading and trailing ASCII whitespace.
pub open spec fn trim(s: Seq<char>) -> Seq<char> {
    trim_end(trim_start(s))
}

/// The email and the timestamp text of one line, or why there are none.
pub open spec fn line_fields(line: Seq<char>) -> Result<(Seq<char>, Seq<char>), WarningKind> {
    match find_pair_from(line, '(', '<', 0) {
        None => Err(WarningKind::MissingEmailStart),
        Some(open) => {
            let email_start = open + 2;
            match find_from(line, '>', email_start) {
                None => Err(WarningKind::MissingEmailEnd),
                Some(email_end) => match find_from(line, ')', email_end + 1) {
                    None => Err(WarningKind::MissingMetadataEnd),
                    Some(close) => match rfind_between(line, ' ', email_end + 1, close) {
                        None => Err(WarningKind::MissingTimestampEnd),
                        Some(ts_end) => Ok(
                            (
                                line.subrange(email_start, email_end),
                                trim(line.subrange(email_end + 1, ts_end)),
                            ),
                        ),
                    },
                },
            }
        },
    }
}

/// Whether the instant `t` lies in the window `[since, asof)`.
pub open spec fn in_window_spec(t: int, since: int, asof: int) -> bool {
    since <= t < asof
}

/// The email to which one line attributes a line of code within the window.
pub open spec fn counted_email(line: Seq<char>, since: int, asof: int) -> Option<Seq<char>> {
    match line_fields(line) {
        Err(_) => None,
        Ok((email, ts)) => match blame_time_of(ts) {
            Some(t) if in_window_spec(t, since, asof) => Some(email),
            _ => None,
        },
    }
}

/// Why one line is skipped, if it is.
pub open spec fn line_warning(line: Seq<char>) -> Option<WarningKind> {
    match line_fields(line) {
        Err(k) => Some(k),
        Ok((_, ts)) => match blame_time_of(ts) {
            None => Some(WarningKind::InvalidTimestamp),
            Some(_) => None,
        },
    }
}

/// The counts that a sequence of lines gives.
pub open spec fn tally_lines(lines: Seq<Seq<char>>, since: int, asof: int) -> Map<Seq<char>, nat>
    decreases lines.len(),
{
    if lines.len() == 0 {
        Map::empty()
    } else {
        let m = tally_lines(lines.drop_last(), since, asof);
        match counted_email(lines.last(), since, asof) {
            Some(email) => add_count(m, email, 1),
            None => m,
        }
    }
}

/// The skipped lines of a sequence of lines: index, reason and text.
pub open spec fn line_warnings(lines: Seq<Seq<char>>) -> Seq<(int, WarningKind, Seq<char>)>
    decreases lines.len(),
{
    if lines.len() == 0 {
        Seq::empty()
    } else {
        let w = line_warnings(lines.drop_last());
        match line_warning(lines.last()) {
            Some(k) => w.push((lines.len() - 1, k, lines.last())),
            None => w,
        }
    }
}

/// `s` cut at each `\n`; a text without newline is one line.
pub open spec fn split_lines(s: Seq<char>) -> Seq<Seq<char>>
    decreases s.len(),
{
    if s.len() == 0 {
        seq![Seq::empty()]
    } else {
        let prev = split_lines(s.drop_last());
        if s.last() == '\n' {
            prev.push(Seq::empty())
        } else {
            prev.update(prev.len() - 1, prev.last().push(s.last()))
        }
    }
}

/// The lines of a blame text: one trailing empty line is not a line.
pub open spec fn blame_lines(s: Seq<char>) -> Seq<Seq<char>> {
    let l = split_lines(s);
    if l.last().len() == 0 {
        l.drop_last()
    } else {
        l
    }
}

/// The counts that a blame text gives within the window `[since, asof)`.
pub open spec fn blame_tally(s: Seq<char>, since: int, asof: int) -> Map<Seq<char>, nat> {
    tally_lines(blame_lines(s), since, asof)
}

pub open spec fn warnings_match(w: Seq<ParseWarning>, spec: Seq<(int, WarningKind, Seq<char>)>) -> bool {
    &&& w.len() == spec.len()
    &&& forall|i: int|
        0 <= i < w.len() ==> {
            &&& w[i].line as int == spec[i].0
            &&& w[i].kind == spec[i].1
            &&& w[i].text@ == spec[i].2
        }
}

pub(crate) fn find_char(s: &Vec<char>, c: char, from: usize) -> (r: Option<usize>)
    requires
        from <= s@.len(),
    ensures
        match r {
            Some(i) => find_from(s@, c, from as int) == Some(i as int) && from <= i < s@.len(),
            None => find_from(s@, c, from as int) is None,
        },
{
    let mut j = from;
    while j < s.len()
        invariant
            from <= j <= s@.len(),
            find_from(s@, c, from as int) == find_from(s@, c, j as int),
        decreases s@.len() - j,
    {
        if s[j] == c {
            return Some(j);
        }
        j = j + 1;
    }
    None
}

fn find_pair(s: &Vec<char>, a: char, b: char) -> (r: Option<usize>)
    ensures
        match r {
            Some(i) => find_pair_from(s@, a, b, 0) == Some(i as int) && i + 1 < s@.len(),
            None => find_pair_from(s@, a, b, 0) is None,
        },
{
    if s.len() < 2 {
        return None;
    }
    let mut j: usize = 0;
    while j < s.len() - 1
        invariant
            s@.len() >= 2,
            j <= s@.len() - 1,
            find_pair_from(s@, a, b, 0) == find_pair_from(s@, a, b, j as int),
        decreases s@.len() - j,
    {
        if s[j] == a && s[j + 1] == b {
            return Some(j);
        }
        j = j + 1;
    }
    None
}

fn rfind_char(s: &Vec<char>, c: char, lo: usize, hi: usize) -> (r: Option<usize>)
    requires
        lo <= hi <= s@.len(),
    ensures
        match r {
            Some(i) => rfind_between(s@, c, lo as int, hi as int) == Some(i as int) && lo <= i < hi,
            None => rfind_between(s@, c, lo as int, hi as int) is None,
        },
{
    let mut j = hi;
    while j > lo
        invariant
            lo <= j <= hi <= s@.len(),
            rfind_between(s@, c, lo as int, hi as int) == rfind_between(s@, c, lo as int, j as int),
        decreases j - lo,
    {
        if s[j - 1] == c {
            return Some(j - 1);
        }
        j = j - 1;
    }
    None
}

fn blank(c: char) -> (r: bool)
    ensures
        r == is_blank(c),
{
    c == ' ' || c == '\t' || c == '\n' || c == '\r' || c == '\x0B' || c == '\x0C'
}

/// The bounds of `s[lo..hi]` without its leading and trailing whitespace.
fn trim_bounds(s: &Vec<char>, lo: usize, hi: usize) -> (r: (usize, usize))
    requires
        lo <= hi <= s@.len(),
    ensures
        lo <= r.0 <= r.1 <= hi,
        s@.subrange(r.0 as int, r.1 as int) == trim(s@.subrange(lo as int, hi as int)),
{
    let mut a = lo;
    while a < hi && blank(s[a])
        invariant
            lo <= a <= hi <= s@.len(),
            trim_start(s@.subrange(lo as int, hi as int)) == trim_start(
                s@.subrange(a as int, hi as int),
            ),
        decreases hi - a,
    {
        assert(s@.subrange(a as int, hi as int).drop_first() =~= s@.subrange(a + 1, hi as int));
        a = a + 1;
    }
    let mut b = hi;
    while b > a && blank(s[b - 1])
        invariant
            lo <= a <= b <= hi <= s@.len(),
            trim_start(s@.subrange(lo as int, hi as int)) == s@.subrange(a as int, hi as int),
            trim_end(s@.subrange(a as int, hi as int)) == trim_end(s@.subrange(a as int, b as int)),
        decreases b - a,
    {
        assert(s@.subrange(a as int, b as int).drop_last() =~= s@.subrange(a as int, b - 1));
        b = b - 1;
    }
    (a, b)
}

fn fields_of(line: &Vec<char>) -> (r: Result<BlameFields, WarningKind>)
    ensures
        match r {
            Ok(f) => line_fields(line@) == Ok::<(Seq<char>, Seq<char>), WarningKind>(
                (f.email@, f.timestamp@),
            ),
            Err(k) => line_fields(line@) == Err::<(Seq<char>, Seq<char>), WarningKind>(k),
        },
{
    let n = line.len();
    let open = match find_pair(line, '(', '<') {
        Some(i) => i,
        None => return Err(WarningKind::MissingEmailStart),
    };
    let email_start = open + 2;
    let email_end = match find_char(line, '>', email_start) {
        Some(i) => i,
        None => return Err(WarningKind::MissingEmailEnd),
    };
    let close = match find_char(line, ')', email_end + 1) {
        Some(i) => i,
        None => return Err(WarningKind::MissingMetadataEnd),
    };
    let ts_end = match rfind_char(line, ' ', email_end + 1, close) {
        Some(i) => i,
        None => return Err(WarningKind::MissingTimestampEnd),
    };
    let (a, b) = trim_bounds(line, email_end + 1, ts_end);
    let email = string_from(line, email_start, email_end);
    let timestamp = string_from(line, a, b);
    Ok(BlameFields { email, timestamp })
}

/// Reads the email and the timestamp text of one line of blame text.
pub fn parse_blame_line(line: &str) -> (r: Result<BlameFields, WarningKind>)
    ensures
        match r {
            Ok(f) => line_fields(line@) == Ok::<(Seq<char>, Seq<char>), WarningKind>(
                (f.email@, f.timestamp@),
            ),
            Err(k) => line_fields(line@) == Err::<(Seq<char>, Seq<char>), WarningKind>(k),
        },
{
    let cs = chars_of(line);
    fields_of(&cs)
}

/// Whether the instant `t` lies in the window `[since, asof)`.
pub fn in_window(t: i64, since: i64, asof: i64) -> (r: bool)
    ensures
        r == in_window_spec(t as int, since as int, asof as int),
{
    since <= t && t < asof
}

/// Counts one line attributed to `email` at the instant `time`, as read
/// from its timestamp text. A line whose timestamp could not be read is
/// reported as `InvalidTimestamp`; one outside `[since, asof)` is dropped.
pub fn record_line(
    counts: &mut LineCounts,
    email: String,
    time: Option<i64>,
    since: i64,
    asof: i64,
) -> (r: Option<WarningKind>)
    requires
        old(counts).wf(),
        old(counts).spec_total() < usize::MAX,
    ensures
        final(counts).wf(),
        r == (if time is None {
            Some(WarningKind::InvalidTimestamp)
        } else {
            None::<WarningKind>
        }),
        final(counts)@ == (match time {
            Some(t) if in_window_spec(t as int, since as int, asof as int) => add_count(
                old(counts)@,
                email@,
                1,
            ),
            _ => old(counts)@,
        }),
        final(counts).spec_total() <= old(counts).spec_total() + 1,
{
    match time {
        None => Some(WarningKind::InvalidTimestamp),
        Some(t) => {
            if in_window(t, since, asof) {
                counts.add(email, 1);
            }
            None
        },
    }
}

fn handle_line(
    line: &Vec<char>,
    line_no: usize,
    since: i64,
    asof: i64,
    counts: &mut LineCounts,
    warnings: &mut Vec<ParseWarning>,
)
    requires
        old(counts).wf(),
        old(counts).spec_total() < usize::MAX,
    ensures
        final(counts).wf(),
        final(counts)@ == (match counted_email(line@, since as int, asof as int) {
            Some(email) => add_count(old(counts)@, email, 1),
            None => old(counts)@,
        }),
        final(counts).spec_total() <= old(counts).spec_total() + 1,
        line_warning(line@) is None ==> final(warnings)@ == old(warnings)@,
        line_warning(line@) is Some ==> {
            &&& final(warnings)@.len() == old(warnings)@.len() + 1
            &&& final(warnings)@.drop_last() == old(warnings)@
            &&& final(warnings)@.last().line == line_no
            &&& final(warnings)@.last().kind == line_warning(line@)->0
            &&& final(warnings)@.last().text@ == line@
        },
{
    match fields_of(line) {
        Err(k) => {
            let text = string_from(line, 0, line.len());
            assert(line@.subrange(0, line@.len() as int) =~= line@);
            warnings.push(ParseWarning { line: line_no, kind: k, text });
        },
        Ok(f) => {
            let time = match parse_blame_time(f.timestamp.as_str()) {
                Ok(t) => Some(t),
                Err(_) => None,
            };
            match record_line(counts, f.email, time, since, asof) {
                Some(k) => {
                    let text = string_from(line, 0, line.len());
                    assert(line@.subrange(0, line@.len() as int) =~= line@);
                    warnings.push(ParseWarning { line: line_no, kind: k, text });
                },
                None => {},
            }
        },
    }
}

/// Parses blame text and counts, per author email, the lines whose
/// timestamp lies in `[since, asof)` (seconds since the Unix epoch). Lines
/// that cannot be parsed are skipped and returned as warnings.
pub fn parse_blame(blame: &str, since: i64, asof: i64) -> (r: (LineCounts, Vec<ParseWarning>))
    ensures
        r.0.wf(),
        r.0@ == blame_tally(blame@, since as int, asof as int),
        r.0.spec_total() <= blame_lines(blame@).len(),
        r.0.spec_total() <= blame@.len(),
        warnings_match(r.1@, line_warnings(blame_lines(blame@))),
{
    let cs = chars_of(blame);
    let n = cs.len();
    let mut counts = LineCounts::new();
    let mut warnings: Vec<ParseWarning> = Vec::new();
    let mut cur: Vec<char> = Vec::new();
    let mut line_no: usize = 0;
    let ghost mut done: Seq<Seq<char>> = Seq::empty();
    let mut i: usize = 0;
    assert(cs@.take(0) =~= Seq::<char>::empty());
    assert(tally_lines(done, since as int, asof as int) =~= Map::<Seq<char>, nat>::empty());
    while i < n
        invariant
            n == cs@.len(),
            cs@ == blame@,
            i <= n,
            split_lines(cs@.take(i as int)) == done.push(cur@),
            line_no == done.len(),
            done.len() + cur@.len() <= i,
            counts.wf(),
            counts@ == tally_lines(done, since as int, asof as int),
            counts.spec_total() <= done.len(),
            warnings_match(warnings@, line_warnings(done)),
        decreases n - i,
    {
        let c = cs[i];
        assert(cs@.take(i + 1).drop_last() =~= cs@.take(i as int));
        if c == '\n' {
            let ghost old_warnings = warnings@;
            handle_line(&cur, line_no, since, asof, &mut counts, &mut warnings);
            proof {
                let nd = done.push(cur@);
                assert(nd.drop_last() =~= done);
                assert(warnings_match(warnings@, line_warnings(nd))) by {
                    if line_warning(cur@) is Some {
                        assert(warnings@.drop_last() =~= old_warnings);
                    }
                }
                done = nd;
            }
            cur = Vec::new();
            line_no = line_no + 1;
            assert(split_lines(cs@.take(i + 1)) =~= done.push(cur@));
        } else {
            let ghost old_cur = cur@;
            cur.push(c);
            assert(split_lines(cs@.take(i + 1)) =~= done.push(cur@)) by {
                let prev = done.push(old_cur);
                assert(prev.update(prev.len() - 1, prev.last().push(c)) =~= done.push(cur@));
            }
        }
        i = i + 1;
    }
    assert(cs@.take(n as int) =~= cs@);
    if cur.len() > 0 {
        let ghost old_warnings = warnings@;
        handle_line(&cur, line_no, since, asof, &mut counts, &mut warnings);
        proof {
            let nd = done.push(cur@);
            assert(nd.drop_last() =~= done);
            assert(warnings_match(warnings@, line_warnings(nd))) by {
                if line_warning(cur@) is Some {
                    assert(warnings@.drop_last() =~= old_warnings);
                }
            }
            done = nd;
        }
        assert(blame_lines(blame@) == done);
    } else {
        assert(done.push(cur@).drop_last() =~= done);
    }
    (counts, warnings)
}

/// A line that cannot be parsed (no `(<`, no closing `>`, no `)`, or a
/// timestamp that does not read) leaves every count as it was, and is
/// reported as a warning that names it.
pub proof fn lemma_malformed_line_skipped(
    lines: Seq<Seq<char>>,
    line: Seq<char>,
    since: int,
    asof: int,
)
    requires
        line_warning(line) is Some,
    ensures
        tally_lines(lines.push(line), since, asof) == tally_lines(lines, since, asof),
        line_warnings(lines.push(line)) == line_warnings(lines).push(
            (lines.len() as int, line_warning(line)->0, line),
        ),
{
    assert(lines.push(line).drop_last() =~= lines);
}

proof fn lemma_split_lines_nonempty(s: Seq<char>)
    ensures
        split_lines(s).len() >= 1,
    decreases s.len(),
{
    if s.len() > 0 {
        lemma_split_lines_nonempty(s.drop_last());
    }
}

/// A text without newline is one line.
proof fn lemma_split_lines_single(s: Seq<char>)
    requires
        !s.contains('\n'),
    ensures
        split_lines(s) == seq![s],
    decreases s.len(),
{
    if s.len() > 0 {
        assert(!s.drop_last().contains('\n')) by {
            if s.drop_last().contains('\n') {
                let j = choose|j: int| 0 <= j < s.drop_last().len() && s.drop_last()[j] == '\n';
                assert(s[j] == '\n');
            }
        }
        lemma_split_lines_single(s.drop_last());
        assert(s.last() != '\n') by {
            assert(s[s.len() - 1] == s.last());
        }
        assert(s.drop_last().push(s.last()) =~= s);
        assert(seq![s.drop_last()].update(0, s.drop_last().push(s.last())) =~= seq![s]);
    } else {
        assert(s =~= Seq::<char>::empty());
    }
}

/// Splitting a text after a line break splits each part on its own.
proof fn lemma_split_lines_concat(p: Seq<char>, t: Seq<char>)
    requires
        p.len() == 0 || p.last() == '\n',
    ensures
        split_lines(p + t) == split_lines(p).drop_last() + split_lines(t),
    decreases t.len(),
{
    let lead = split_lines(p).drop_last();
    if t.len() == 0 {
        assert(p + t =~= p);
        if p.len() > 0 {
            assert(p.drop_last() + seq![p.last()] =~= p);
        }
        lemma_split_lines_nonempty(p);
        assert(split_lines(p).last() =~= Seq::<char>::empty());
        assert(lead + split_lines(t) =~= split_lines(p));
    } else {
        assert((p + t).drop_last() =~= p + t.drop_last());
        assert((p + t).last() == t.last());
        lemma_split_lines_concat(p, t.drop_last());
        lemma_split_lines_nonempty(t.drop_last());
        let prev = split_lines(t.drop_last());
        if t.last() == '\n' {
            assert((lead + prev).push(Seq::empty()) =~= lead + prev.push(Seq::empty()));
        } else {
            let whole = lead + prev;
            assert(whole.update(whole.len() - 1, whole.last().push(t.last())) =~= lead
                + prev.update(prev.len() - 1, prev.last().push(t.last())));
        }
    }
}

proof fn lemma_tally_skip_middle(l1: Seq<Seq<char>>, x: Seq<char>, l2: Seq<Seq<char>>, since: int, asof: int)
    requires
        counted_email(x, since, asof) is None,
    ensures
        tally_lines(l1 + seq![x] + l2, since, asof) == tally_lines(l1 + l2, since, asof),
    decreases l2.len(),
{
    if l2.len() == 0 {
        assert(l1 + seq![x] + l2 =~= l1.push(x));
        assert(l1.push(x).drop_last() =~= l1);
        assert(l1 + l2 =~= l1);
    } else {
        assert((l1 + seq![x] + l2).drop_last() =~= l1 + seq![x] + l2.drop_last());
        assert((l1 + l2).drop_last() =~= l1 + l2.drop_last());
        lemma_tally_skip_middle(l1, x, l2.drop_last(), since, asof);
    }
}

/// A malformed line in a blame text changes no count: the text with the
/// line and its line break removed gives the same counts. `before` is the
/// text up to the line (empty or ending with a line break), `after` the
/// text that follows the line break.
pub proof fn lemma_malformed_line_in_text(
    before: Seq<char>,
    line: Seq<char>,
    after: Seq<char>,
    since: int,
    asof: int,
)
    requires
        before.len() == 0 || before.last() == '\n',
        !line.contains('\n'),
        line_warning(line) is Some,
    ensures
        blame_tally(before + line + seq!['\n'] + after, since, asof) == blame_tally(
            before + after,
            since,
            asof,
        ),
{
    let nl = line + seq!['\n'];
    let lead = split_lines(before).drop_last();
    assert(before + line + seq!['\n'] + after =~= before + (nl + after));
    lemma_split_lines_concat(before, nl + after);
    lemma_split_lines_concat(before, after);
    lemma_split_lines_concat(nl, after);
    lemma_split_lines_single(line);
    assert(nl.drop_last() =~= line);
    assert(split_lines(nl) == seq![line].push(Seq::<char>::empty()));
    assert(split_lines(nl).drop_last() =~= seq![line]);
    lemma_split_lines_nonempty(after);
    let tail = split_lines(after);
    let rest = if tail.last().len() == 0 {
        tail.drop_last()
    } else {
        tail
    };
    let with_line = lead + seq![line] + tail;
    let without = lead + tail;
    assert(split_lines(before + line + seq!['\n'] + after) =~= with_line);
    assert(split_lines(before + after) == without);
    assert(with_line.last() == tail.last());
    assert(without.last() == tail.last());
    if tail.last().len() == 0 {
        assert(with_line.drop_last() =~= lead + seq![line] + rest);
        assert(without.drop_last() =~= lead + rest);
    } else {
        assert(with_line =~= lead + seq![line] + rest);
        assert(without =~= lead + rest);
    }
    assert(counted_email(line, since, asof) is None);
    lemma_tally_skip_middle(lead, line, rest, since, asof);
}

} // verus!
