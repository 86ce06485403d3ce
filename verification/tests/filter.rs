use local_git_ops::filter::{is_noise, AuthorFilter, PathFilter};

#[test]
fn filters_noise_by_default() {
    let f = PathFilter::new(None, true);
    assert!(!f.included("Cargo.lock"));
    assert!(!f.included("app/package-lock.json"));
    assert!(!f.included("CHANGELOG.md"));
    assert!(!f.included("web/dist/bundle.min.js"));
    assert!(!f.included("node_modules/lodash/index.js"));
    assert!(f.included("src/main.rs"));
}

#[test]
fn scope_restricts_prefix() {
    let f = PathFilter::new(Some("src".into()), true);
    assert!(f.included("src/main.rs"));
    assert!(!f.included("docs/readme.md"));
    assert!(!f.included("srcs/decoy.rs"));
}

#[test]
fn no_default_filters_keeps_lockfiles() {
    let f = PathFilter::new(None, false);
    assert!(f.included("Cargo.lock"));
}

#[test]
fn exclude_patterns_drop_paths() {
    let f = PathFilter::new(None, true)
        .with_excludes(&["docs/".into(), "*.md".into(), "src/generated.rs".into()])
        .unwrap();
    assert!(!f.included("docs/guide.txt"));
    assert!(!f.included("README.md"));
    assert!(!f.included("nested/notes.md"));
    assert!(!f.included("src/generated.rs"));
    assert!(f.included("src/main.rs"));
    // Exact-match pattern must not act as a prefix.
    assert!(f.included("src/generated.rs.bak"));
}

#[test]
fn restrictive_only_with_scope_or_excludes() {
    assert!(!PathFilter::new(None, true).is_restrictive());
    assert!(PathFilter::new(Some("src".into()), true).is_restrictive());
    assert!(PathFilter::new(None, true)
        .with_excludes(&["*.md".into()])
        .unwrap()
        .is_restrictive());
}

#[test]
fn invalid_exclude_pattern_is_rejected_gracefully() {
    // `(` is regex-escaped, so weird-but-valid filenames work as literals.
    let f = PathFilter::new(None, true)
        .with_excludes(&["weird(name.rs".into()])
        .unwrap();
    assert!(!f.included("weird(name.rs"));
}

#[test]
fn author_filter_matches_names_case_insensitively() {
    let f = AuthorFilter::new(&["Alice".to_string()], false);
    assert!(f.excluded("alice"));
    assert!(f.excluded("ALICE"));
    assert!(!f.excluded("Bob"));
    assert!(!f.excluded("dependabot[bot]"));
}

#[test]
fn author_filter_excludes_bots() {
    let f = AuthorFilter::new(&[], true);
    assert!(f.excluded("dependabot[bot]"));
    assert!(f.excluded("Renovate[Bot]"));
    assert!(!f.excluded("Bob"));
    assert!(!f.excluded("robotics-team"));
}

#[test]
fn author_filter_default_excludes_nothing() {
    let f = AuthorFilter::default();
    assert!(!f.excluded("dependabot[bot]"));
    assert!(f.describe().is_none());
    assert_eq!(
        AuthorFilter::new(&["Bob".into()], true).describe().as_deref(),
        Some("bob, *[bot]")
    );
}

#[test]
fn author_filter_trims_sorts_and_dedups_names() {
    let f = AuthorFilter::new(
        &vec!["  Zed ".into(), "alice".into(), "ALICE".into(), "mallory".into()],
        false,
    );
    assert_eq!(f.describe().as_deref(), Some("alice, mallory, zed"));
    assert!(f.excluded("Zed"));
    assert!(!f.excluded(" Zed "));
}

#[test]
fn scope_is_normalized() {
    let f = PathFilter::new(Some("//src/app//".into()), true);
    assert_eq!(f.scope.as_deref(), Some("src/app/"));
    assert!(PathFilter::new(Some("///".into()), true).scope.is_none());
    assert!(PathFilter::new(Some("".into()), true).scope.is_none());
}

#[test]
fn leading_dot_slash_is_ignored_and_question_mark_matches_one_char() {
    let f = PathFilter::new(None, false)
        .with_excludes(&["./././a?.txt".into()])
        .unwrap();
    assert!(!f.included("ab.txt"));
    assert!(f.included("abc.txt"));
    assert!(f.included("a.txt"));
    assert!(f.included("xab.txt"));
}

#[test]
fn noise_rules() {
    assert!(is_noise("changelog.txt"));
    assert!(is_noise("docs/ChangeLog"));
    assert!(is_noise("a/b/vendor/x.go"));
    assert!(is_noise("api/service.pb.go"));
    assert!(is_noise("mix.lock"));
    assert!(!is_noise("myvendor/x.go"));
    assert!(!is_noise("src/lock.rs"));
    assert!(!is_noise("CHANGE.md"));
}

#[test]
fn pattern_error_message_names_the_pattern() {
    let e = local_git_ops::filter::PatternError {
        pattern: "x(".to_string(),
        detail: "unclosed group".to_string(),
    };
    assert_eq!(e.message(), "invalid --exclude-path 'x(': unclosed group");
}

#[test]
fn author_filter_summary_ignores_name_order() {
    let a = AuthorFilter::new(&["carol".into(), "Bob".into(), "bob ".into()], true);
    let b = AuthorFilter::new(&["BOB".into(), "Carol".into()], true);
    assert_eq!(a.describe(), b.describe());
    assert_eq!(a.describe().as_deref(), Some("bob, carol, *[bot]"));
}

#[test]
fn added_exclusions_only_narrow_the_filter() {
    let paths = ["src/a.rs", "src/b.rs", "docs/x.txt", "Cargo.lock", "app/main.rs"];
    let f = PathFilter::new(Some("src".into()), true);
    let g = PathFilter::new(Some("src".into()), true)
        .with_excludes(&["src/b.rs".into()])
        .unwrap();
    for p in paths {
        assert_eq!(g.included(p), f.included(p) && p != "src/b.rs", "{p}");
    }
    let open = PathFilter::new(None, false);
    assert!(!open.is_restrictive());
    assert!(PathFilter::new(None, false).with_excludes(&["x".into()]).unwrap().is_restrictive());
    assert!(!PathFilter::new(None, false).with_excludes(&[]).unwrap().is_restrictive());
}

#[test]
fn glob_literals_are_escaped_as_the_regex_crate_does() {
    let literal = "a.b+c(d)|[e]{f}^g$h#i&j-k~l\\m";
    let expected = format!("^{}$", regex::escape(literal));
    assert_eq!(local_git_ops::pattern::glob_to_regex(literal), expected);
}
