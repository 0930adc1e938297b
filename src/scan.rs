//! Selection of the files of a repository whose lines are attributed, and
//! accumulation of their blame counts.

use vstd::prelude::*;
use crate::blame::{ParseWarning, blame_tally, parse_blame};
use crate::counts::{LineCounts, merged, lemma_merge_associative_maps, lemma_merge_commutative_maps};

verus! {

/// The patterns that a regex set was built from, in order.
pub uninterp spec fn regex_set_patterns(set: regex::RegexSet) -> Seq<Seq<char>>;

/// Whether one of the regular expressions `patterns` matches somewhere in
/// `text`.
pub uninterp spec fn any_pattern_matches(patterns: Seq<Seq<char>>, text: Seq<char>) -> bool;

/// Whether regex accepts every one of `patterns` as a regular expression
/// and can build a set of them.
pub uninterp spec fn patterns_compile(patterns: Seq<Seq<char>>) -> bool;

#[verifier::external_type_specification]
#[verifier::external_body]
pub struct ExRegexSet(regex::RegexSet);

#[verifier::external_type_specification]
#[verifier::external_body]
pub struct ExRegexError(regex::Error);

/// Relies on regex's `RegexSet::new`: a set built from the given patterns,
/// which it keeps in the order given (as `RegexSet::patterns` returns them),
/// or an error; which of the two depends on the patterns alone.
#[verifier::external_body]
fn compile_set(patterns: &Vec<String>) -> (r: Result<regex::RegexSet, regex::Error>)
    ensures
        r is Ok <==> patterns_compile(patterns@.map_values(|p: String| p@)),
        r matches Ok(set) ==> regex_set_patterns(set) == patterns@.map_values(|p: String| p@),
{
    regex::RegexSet::new(patterns.iter())
}

/// Relies on regex's `RegexSet::is_match`: whether any pattern of the set
/// matches somewhere in `text`.
#[verifier::external_body]
fn set_is_match(set: &regex::RegexSet, text: &str) -> (r: bool)
    ensures
        r == any_pattern_matches(regex_set_patterns(*set), text@),
{
    set.is_match(text)
}

/// Why the scan of one repository failed.
#[derive(Debug)]
pub enum ScanError {
    /// An exclusion pattern is not a valid regular expression.
    InvalidPattern,
    /// The files of the repository could not be enumerated.
    Traversal(String),
    /// The blame text of a file could not be obtained.
    Extraction(String),
}

/// A repository to scan: where it comes from, and the patterns of the
/// paths that it excludes besides the default ones.
pub struct Repo {
    pub url: String,
    pub exclude: Option<Vec<String>>,
}

/// The paths that every scan excludes: version-control metadata, lock
/// files, data, logs, captures, images, fonts and the licence at the root.
pub open spec fn default_exclusion_spec() -> Seq<Seq<char>> {
    seq![
        "^\\.git/"@,
        "(^|/)Cargo\\.lock$"@,
        "\\.dat$"@,
        "\\.log$"@,
        "\\.pcap$"@,
        "\\.png$"@,
        "\\.woff$"@,
        "\\.woff2$"@,
        "^LICENSE$"@,
    ]
}

pub fn default_exclusions() -> (r: Vec<String>)
    ensures
        r@.map_values(|p: String| p@) == default_exclusion_spec(),
{
    let r = vec![
        String::from_str("^\\.git/"),
        String::from_str("(^|/)Cargo\\.lock$"),
        String::from_str("\\.dat$"),
        String::from_str("\\.log$"),
        String::from_str("\\.pcap$"),
        String::from_str("\\.png$"),
        String::from_str("\\.woff$"),
        String::from_str("\\.woff2$"),
        String::from_str("^LICENSE$"),
    ];
    assert(r@.map_values(|p: String| p@) =~= default_exclusion_spec());
    r
}

/// The exclusion patterns of a repository: the default ones, then its own.
pub fn exclusion_patterns(repo: &Repo) -> (r: Vec<String>)
    ensures
        r@.map_values(|p: String| p@) == default_exclusion_spec() + (match repo.exclude {
            Some(v) => v@.map_values(|p: String| p@),
            None => Seq::empty(),
        }),
{
    let mut r = default_exclusions();
    let ghost d = r@;
    match &repo.exclude {
        Some(v) => {
            let mut i: usize = 0;
            while i < v.len()
                invariant
                    i <= v@.len(),
                    r@ == d + v@.subrange(0, i as int),
                decreases v@.len() - i,
            {
                r.push(v[i].clone());
                assert(v@.subrange(0, i + 1) =~= v@.subrange(0, i as int).push(v@[i as int]));
                i = i + 1;
            }
            assert(v@.subrange(0, i as int) =~= v@);
            assert(r@.map_values(|p: String| p@) =~= d.map_values(|p: String| p@) + v@.map_values(
                |p: String| p@,
            ));
        },
        None => {
            assert(r@.map_values(|p: String| p@) =~= default_exclusion_spec() + Seq::empty());
        },
    }
    r
}

/// A compiled set of exclusion patterns.
pub struct ExcludeFilter {
    set: regex::RegexSet,
}

impl ExcludeFilter {
    /// The patterns of the filter, in order.
    pub closed spec fn patterns(&self) -> Seq<Seq<char>> {
        regex_set_patterns(self.set)
    }

    /// Compiles `patterns`; fails with `InvalidPattern` exactly where regex
    /// does not accept them.
    pub fn new(patterns: &Vec<String>) -> (r: Result<ExcludeFilter, ScanError>)
        ensures
            r is Ok <==> patterns_compile(patterns@.map_values(|p: String| p@)),
            match r {
                Ok(f) => f.patterns() == patterns@.map_values(|p: String| p@),
                Err(e) => e is InvalidPattern,
            },
    {
        match compile_set(patterns) {
            Ok(set) => Ok(ExcludeFilter { set }),
            Err(_) => Err(ScanError::InvalidPattern),
        }
    }

    /// Whether one of the patterns matches somewhere in `path`.
    pub fn is_excluded(&self, path: &str) -> (r: bool)
        ensures
            r == any_pattern_matches(self.patterns(), path@),
    {
        set_is_match(&self.set, path)
    }
}

/// One entry met while walking a repository: its path relative to the
/// repository root, one component per directory level, and its kind.
pub struct WalkEntry {
    pub components: Vec<String>,
    pub is_dir: bool,
    pub is_symlink: bool,
}

/// The components of a path joined with `/`, whatever the host's separator.
pub open spec fn join_path(cs: Seq<Seq<char>>) -> Seq<char>
    decreases cs.len(),
{
    if cs.len() == 0 {
        Seq::empty()
    } else if cs.len() == 1 {
        cs[0]
    } else {
        join_path(cs.drop_last()) + seq!['/'] + cs.last()
    }
}

/// The path of an entry to attribute: entries that are directories,
/// symbolic links or the root itself are not files; a path that an
/// exclusion pattern matches is excluded.
pub open spec fn selected_path(
    components: Seq<Seq<char>>,
    is_dir: bool,
    is_symlink: bool,
    patterns: Seq<Seq<char>>,
) -> Option<Seq<char>> {
    if is_dir || is_symlink || components.len() == 0 {
        None
    } else if any_pattern_matches(patterns, join_path(components)) {
        None
    } else {
        Some(join_path(components))
    }
}

/// The components of a path joined with `/`.
pub fn normalized_path(components: &Vec<String>) -> (r: String)
    ensures
        r@ == join_path(components@.map_values(|c: String| c@)),
{
    let ghost cs = components@.map_values(|c: String| c@);
    let mut r = String::new();
    let mut i: usize = 0;
    while i < components.len()
        invariant
            i <= components@.len(),
            cs == components@.map_values(|c: String| c@),
            r@ == join_path(cs.take(i as int)),
        decreases components@.len() - i,
    {
        assert(cs.take(i + 1).drop_last() =~= cs.take(i as int));
        if i > 0 {
            crate::text::append_str(&mut r, "/");
            proof {
                reveal_strlit("/");
            }
        }
        crate::text::append_str(&mut r, components[i].as_str());
        proof {
            if i > 0 {
                assert(r@ =~= join_path(cs.take(i as int)) + seq!['/'] + cs[i as int]);
            } else {
                assert(r@ =~= cs[0]);
            }
        }
        i = i + 1;
    }
    assert(cs.take(i as int) =~= cs);
    r
}

/// The repository-relative path, with `/` between components, of an entry
/// whose lines are to be attributed; `None` for directories, symbolic
/// links, the root and excluded paths.
pub fn select_file(filter: &ExcludeFilter, entry: &WalkEntry) -> (r: Option<String>)
    ensures
        match r {
            Some(p) => selected_path(
                entry.components@.map_values(|c: String| c@),
                entry.is_dir,
                entry.is_symlink,
                filter.patterns(),
            ) == Some(p@),
            None => selected_path(
                entry.components@.map_values(|c: String| c@),
                entry.is_dir,
                entry.is_symlink,
                filter.patterns(),
            ) is None,
        },
{
    if entry.is_dir || entry.is_symlink || entry.components.len() == 0 {
        return None;
    }
    let path = normalized_path(&entry.components);
    if filter.is_excluded(path.as_str()) {
        None
    } else {
        Some(path)
    }
}

/// Adds to `total` the lines of one file's blame text whose timestamp lies
/// in `[since, asof)`, and returns the lines that were skipped.
pub fn add_file_blame(total: &mut LineCounts, blame: &str, since: i64, asof: i64) -> (r: Vec<
    ParseWarning,
>)
    requires
        old(total).wf(),
        old(total).spec_total() + blame@.len() <= usize::MAX,
    ensures
        final(total).wf(),
        final(total)@ == merged(old(total)@, blame_tally(blame@, since as int, asof as int)),
        final(total).spec_total() <= old(total).spec_total() + blame@.len(),
{
    let (counts, warnings) = parse_blame(blame, since, asof);
    total.merge(&counts);
    warnings
}

/// Files may be processed in any order: adding the counts of two blame
/// texts to an accumulator gives the same counts whichever comes first.
pub proof fn lemma_file_order_irrelevant(
    total: &LineCounts,
    first: Seq<char>,
    second: Seq<char>,
    since: int,
    asof: int,
)
    ensures
        merged(merged(total@, blame_tally(first, since, asof)), blame_tally(second, since, asof))
            == merged(
            merged(total@, blame_tally(second, since, asof)),
            blame_tally(first, since, asof),
        ),
{
    let a = blame_tally(first, since, asof);
    let b = blame_tally(second, since, asof);
    lemma_merge_associative_maps(total@, a, b);
    lemma_merge_commutative_maps(a, b);
    lemma_merge_associative_maps(total@, b, a);
}

} // verus!
