use local_git_ops::filter::AuthorFilter;
use local_git_ops::history::{
    assemble, commit_meta, is_bugfix_message, is_firefight_message, select_window, RawCommit,
    WindowOpts,
};

const DAY: i64 = 86_400;
const NOW: i64 = 1_780_000_000;

fn raw(author: &str, days_back: i64, msg: &str, parents: usize) -> RawCommit {
    RawCommit {
        author: Some(author.to_string()),
        time: NOW - days_back * DAY,
        summary: Some(msg.lines().next().unwrap_or("").to_string()),
        message: msg.to_string(),
        parent_count: parents,
    }
}

#[test]
fn bug_regex_matches_word_boundaries() {
    assert!(is_bugfix_message("Fix crash on empty input"));
    assert!(is_bugfix_message("fixes #42"));
    assert!(is_bugfix_message("api response was broken"));
    assert!(is_bugfix_message("Bug: wrong offset"));
    assert!(!is_bugfix_message("add prefix tree"));
    assert!(!is_bugfix_message("debug logging"));
}

#[test]
fn firefight_regex_matches() {
    assert!(is_firefight_message("Revert \"add api endpoint\""));
    assert!(is_firefight_message("hotfix: timeout"));
    assert!(is_firefight_message("emergency patch for prod"));
    assert!(is_firefight_message("rolled back the migration"));
    assert!(is_firefight_message("rollback deploy"));
    assert!(!is_firefight_message("add rolling average metric"));
}

#[test]
fn commit_meta_sanitizes_and_classifies() {
    let r = RawCommit {
        author: Some("  Mallory|`tick \u{1b}[0m ".to_string()),
        time: 42,
        summary: Some("Revert \"\u{1b}[31mevil\u{1b}]0;pwned\u{7}\"".to_string()),
        message: "Revert \"evil\"\n\nfixes #1".to_string(),
        parent_count: 2,
    };
    let m = commit_meta(&r);
    assert_eq!(m.author, "Mallory|`tick [0m");
    assert_eq!(m.summary, "Revert \"[31mevil]0;pwned\"");
    assert!(m.is_merge);
    assert!(m.is_bugfix);
    assert!(m.is_firefight);
    let unknown = commit_meta(&RawCommit {
        author: None,
        time: 0,
        summary: None,
        message: String::new(),
        parent_count: 0,
    });
    assert_eq!(unknown.author, "<unknown>");
    assert_eq!(unknown.summary, "");
    assert!(!unknown.is_merge && !unknown.is_bugfix && !unknown.is_firefight);
}

#[test]
fn window_is_capped_and_skips_merges() {
    let raws = vec![
        raw("A", 1, "a", 1),
        raw("A", 2, "merge", 2),
        raw("A", 3, "b", 1),
        raw("A", 4, "c", 1),
        raw("A", 5, "d", 0),
    ];
    let opts = WindowOpts { max_commits: 2, days: None, now: NOW, authors: AuthorFilter::default() };
    let sel = select_window(&raws, &opts);
    assert_eq!(sel.metas.len(), 5);
    assert_eq!(sel.window, vec![(0, 0), (2, 2)]);
}

#[test]
fn window_respects_days() {
    let raws = vec![raw("A", 1, "a", 1), raw("A", 3, "b", 1), raw("A", 9, "c", 1)];
    let opts = WindowOpts {
        max_commits: usize::MAX,
        days: Some(3),
        now: NOW,
        authors: AuthorFilter::default(),
    };
    let sel = select_window(&raws, &opts);
    assert_eq!(sel.window, vec![(0, 0), (1, 1)]);
}

#[test]
fn excluded_authors_vanish_from_history() {
    let raws = vec![
        raw("Mallory", 1, "noise", 1),
        raw("dependabot[bot]", 2, "bump deps again", 1),
        raw("Alice", 3, "more core", 1),
        raw("dependabot[bot]", 4, "bump deps", 1),
        raw("Alice", 5, "initial commit", 0),
    ];
    let opts = WindowOpts {
        max_commits: 100,
        days: None,
        now: NOW,
        authors: AuthorFilter::new(&["mallory".to_string()], true),
    };
    let sel = select_window(&raws, &opts);
    assert_eq!(sel.metas.len(), 2);
    assert!(sel.metas.iter().all(|m| m.author == "Alice"));
    assert_eq!(sel.window, vec![(2, 0), (4, 1)]);

    let diffs = vec![vec!["src/core.rs".to_string()], vec!["src/\u{1b}core.rs".to_string(), "b".to_string()]];
    let h = assemble(sel, &diffs);
    assert_eq!(h.window_commits, 2);
    let changes: Vec<(String, usize)> =
        h.changes.iter().map(|c| (c.path.clone(), c.meta_idx)).collect();
    assert_eq!(
        changes,
        vec![
            ("src/core.rs".to_string(), 0),
            ("src/core.rs".to_string(), 1),
            ("b".to_string(), 1)
        ]
    );
}
