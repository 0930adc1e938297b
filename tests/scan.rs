use pbmetric::counts::LineCounts;
use pbmetric::scan::{
    add_file_blame, default_exclusions, exclusion_patterns, normalized_path, select_file,
    ExcludeFilter, Repo, ScanError, WalkEntry,
};

fn file(path: &str) -> WalkEntry {
    WalkEntry {
        components: path.split('/').map(|s| s.to_string()).collect(),
        is_dir: false,
        is_symlink: false,
    }
}

fn default_filter() -> ExcludeFilter {
    match ExcludeFilter::new(&default_exclusions()) {
        Ok(f) => f,
        Err(e) => panic!("{e:?}"),
    }
}

#[test]
fn root_anchored_pattern_excludes_only_root_license() {
    let filter = default_filter();
    assert_eq!(select_file(&filter, &file("LICENSE")), None);
    assert_eq!(select_file(&filter, &file("vendor/LICENSE")), Some("vendor/LICENSE".to_string()));
}

#[test]
fn default_patterns_exclude_metadata_and_binaries() {
    let filter = default_filter();
    for p in [".git/config", "Cargo.lock", "sub/Cargo.lock", "a/b.png", "x.log", "f.woff2", "d.dat"] {
        assert_eq!(select_file(&filter, &file(p)), None, "{p}");
    }
    for p in ["src/main.rs", "MyCargo.lock", "a.git/x", "docs/LICENSE.md"] {
        assert_eq!(select_file(&filter, &file(p)), Some(p.to_string()), "{p}");
    }
    assert_eq!(default_exclusions().len(), 9);
}

#[test]
fn directories_symlinks_and_root_are_not_files() {
    let filter = default_filter();
    let mut d = file("src");
    d.is_dir = true;
    assert_eq!(select_file(&filter, &d), None);
    let mut l = file("link.rs");
    l.is_symlink = true;
    assert_eq!(select_file(&filter, &l), None);
    let root = WalkEntry { components: vec![], is_dir: false, is_symlink: false };
    assert_eq!(select_file(&filter, &root), None);
}

#[test]
fn invalid_pattern_is_rejected() {
    let patterns = vec!["(unclosed".to_string()];
    assert!(matches!(ExcludeFilter::new(&patterns), Err(ScanError::InvalidPattern)));
}

#[test]
fn repository_patterns_follow_defaults() {
    let repo = Repo { url: "https://example.com/r.git".to_string(), exclude: Some(vec![r"^docs/".to_string()]) };
    let patterns = exclusion_patterns(&repo);
    assert_eq!(patterns.len(), 10);
    assert_eq!(patterns[9], r"^docs/");
    let filter = ExcludeFilter::new(&patterns).unwrap_or_else(|e| panic!("{e:?}"));
    assert_eq!(select_file(&filter, &file("docs/a.md")), None);
    assert!(filter.is_excluded("LICENSE"));
    assert!(!filter.is_excluded("src/docs/a.md"));
    let plain = Repo { url: String::new(), exclude: None };
    assert_eq!(exclusion_patterns(&plain), default_exclusions());
}

#[test]
fn paths_are_joined_with_slashes() {
    let parts = vec!["a".to_string(), "b c".to_string(), "d.rs".to_string()];
    assert_eq!(normalized_path(&parts), "a/b c/d.rs");
    assert_eq!(normalized_path(&vec!["x".to_string()]), "x");
    assert_eq!(normalized_path(&vec![]), "");
}

#[test]
fn file_blames_accumulate() {
    let since = 1704067200; // 2024-01-01T00:00:00Z
    let asof = 1704326400; // 2024-01-04T00:00:00Z
    let mut total = LineCounts::new();
    let w = add_file_blame(&mut total, "(<a@x> 2024-01-02 00:00:00 +0000 1)\n(<b@x> 2024-01-02 00:00:00 +0000 2)\n", since, asof);
    assert!(w.is_empty());
    let w = add_file_blame(&mut total, "(<a@x> 2024-01-03 00:00:00 +0000 1)\nbroken\n", since, asof);
    assert_eq!(w.len(), 1);
    assert_eq!(total.get(&"a@x".to_string()), 2);
    assert_eq!(total.get(&"b@x".to_string()), 1);
    assert_eq!(total.total(), 3);
}
