use local_git_ops::filter::PathFilter;
use local_git_ops::history::{CommitMeta, FileChange, History};
use local_git_ops::metrics::{
    classify_trend, days_ago, FileMetrics, Firefight, Report, Trend, Velocity,
};

const DAY: i64 = 86_400;
const NOW: i64 = 1_780_000_000;

fn meta(author: &str, days_back: i64, bugfix: bool, firefight: bool) -> CommitMeta {
    CommitMeta {
        author: author.to_string(),
        time: NOW - days_back * DAY,
        summary: "summary".to_string(),
        is_merge: false,
        is_bugfix: bugfix,
        is_firefight: firefight,
    }
}

fn change(path: &str, meta_idx: usize) -> FileChange {
    FileChange { path: path.to_string(), meta_idx }
}

fn months(counts: &[u32]) -> Vec<(String, u32)> {
    counts
        .iter()
        .enumerate()
        .map(|(i, &c)| (format!("2025-{:02}", i + 1), c))
        .collect()
}

#[test]
fn trend_sparse_steady_declining_cliff_spiky() {
    // Last month is dropped as partial, hence the trailing sentinel.
    assert!(classify_trend(&months(&[3, 4, 1])) == Trend::Sparse);
    assert!(classify_trend(&months(&[5, 5, 6, 5, 6, 5, 5, 1])) == Trend::Steady);
    assert!(classify_trend(&months(&[12, 11, 10, 9, 8, 5, 4, 3, 1])) == Trend::Declining);
    assert!(classify_trend(&months(&[10, 10, 10, 10, 2, 2, 2, 2, 1])) == Trend::Cliff);
    assert!(classify_trend(&months(&[1, 30, 1, 30, 1, 30, 1, 30, 1])) == Trend::Spiky);
}

#[test]
fn trend_edge_cases() {
    assert!(classify_trend(&months(&[])) == Trend::Sparse);
    assert!(classify_trend(&months(&[1, 1, 1, 1, 1, 9])) == Trend::Sparse);
    assert!(classify_trend(&months(&[0, 0, 0, 0, 0, 0, 0])) == Trend::Steady);
    // a drop that recovers is not a cliff
    assert!(classify_trend(&months(&[8, 8, 8, 3, 8, 8, 8, 1])) == Trend::Steady);
}

#[test]
fn days_ago_formats() {
    assert_eq!(days_ago(NOW, NOW), "today");
    assert_eq!(days_ago(NOW, NOW - DAY), "yesterday");
    assert_eq!(days_ago(NOW, NOW - 12 * DAY), "12d ago");
}

#[test]
fn days_ago_rounds_toward_zero_and_handles_future() {
    assert_eq!(days_ago(NOW, NOW - DAY + 1), "today");
    assert_eq!(days_ago(NOW, NOW - 2 * DAY - 5), "2d ago");
    assert_eq!(days_ago(NOW, NOW + 3 * DAY), "-3d ago");
    assert_eq!(days_ago(NOW, NOW - 1000 * DAY), "1000d ago");
}

#[test]
fn risk_classification() {
    let file = |bug_fixes: u32| FileMetrics {
        path: "f".into(),
        churn: 5,
        bug_fixes,
        authors: vec!["a".into()],
        last_touched: NOW,
        loc: Some(100),
    };
    // a score of 80 is high, 10 is not
    assert_eq!(file(3).risk(80.0 >= 50.0).label(), "CRITICAL");
    assert_eq!(file(0).risk(80.0 >= 50.0).label(), "HIGH");
    assert_eq!(file(3).risk(10.0 >= 50.0).label(), "HIGH");
    assert_eq!(file(1).risk(10.0 >= 50.0).label(), "WATCH");
}

#[test]
fn report_aggregates_files_and_authors() {
    // Alice churns core.rs (one bugfix), Bob touches api.rs once.
    let metas = vec![
        meta("Alice", 10, false, false),
        meta("Alice", 8, true, false),
        meta("Alice", 6, false, false),
        meta("Bob", 2, false, true),
    ];
    let changes = vec![
        change("src/core.rs", 0),
        change("src/core.rs", 1),
        change("src/core.rs", 2),
        change("src/api.rs", 3),
        change("Cargo.lock", 0),
    ];
    let history = History { metas, changes, window_commits: 4 };
    let loc: Vec<(String, usize)> =
        vec![("src/core.rs".to_string(), 200), ("src/api.rs".to_string(), 20)];
    let filter = PathFilter::new(None, true);
    let report = Report::compute(&history, &loc, &filter, NOW);

    assert!(report.files.iter().all(|f| f.path != "Cargo.lock"));
    let core = &report.files[0];
    assert_eq!(core.path, "src/core.rs");
    assert_eq!(core.churn, 3);
    assert_eq!(core.bug_fixes, 1);
    assert_eq!(core.authors, vec!["Alice".to_string()]);
    assert_eq!(core.last_touched, NOW - 6 * DAY);
    assert_eq!(core.loc, Some(200));
    assert!(scores(&report)[0] > 0.0);

    // api.rs has churn 1 → no hotspot score.
    assert_eq!(report.hotspots, vec![0]);
    assert_eq!(report.bug_clusters, vec![0]);

    assert_eq!(report.authors[0].name, "Alice");
    assert_eq!(report.authors[0].commits, 3);
    let share = report.authors[0].commits as f64 / report.ownership_total as f64;
    assert!((share - 0.75).abs() < 1e-9);
    assert_eq!(report.firefight.count_last_year, 1);
    assert_eq!(report.total_commits, 4);
    assert_eq!(report.max_churn, 3);
    assert_eq!(report.max_loc, 200);
}

#[test]
fn bus_factor_flags_dominant_and_inactive() {
    let metas = vec![
        meta("Alice", 200, false, false),
        meta("Alice", 210, false, false),
        meta("Alice", 220, false, false),
        meta("Bob", 1, false, false),
    ];
    let history = History { metas, changes: vec![], window_commits: 4 };
    let report = Report::compute(&history, &vec![], &PathFilter::new(None, true), NOW);
    let (dominant, inactive) = report.bus_factor_flags();
    assert!(dominant, "75% share should flag bus factor");
    assert!(inactive, "top author silent 200 days should flag inactive");
    assert_eq!(report.active_authors_last_year, 2);
}

#[test]
fn scoped_ownership_counts_only_contributors_to_included_paths() {
    let metas = vec![
        meta("Alice", 5, false, false),
        meta("Alice", 4, false, false),
        meta("Bob", 3, false, false),
    ];
    let changes = vec![change("src/a.rs", 0), change("src/a.rs", 1), change("docs/x.txt", 2)];
    let history = History { metas, changes, window_commits: 3 };
    let loc = vec![];

    let scoped = PathFilter::new(Some("src".into()), true);
    let report = Report::compute(&history, &loc, &scoped, NOW);
    assert!(report.ownership_scoped);
    assert_eq!(report.authors.len(), 1);
    assert_eq!(report.authors[0].name, "Alice");
    assert_eq!(report.authors[0].commits, 2);
    let share = report.authors[0].commits as f64 / report.ownership_total as f64;
    assert!((share - 1.0).abs() < 1e-9);
    assert_eq!(report.authors[0].last_active, NOW - 4 * DAY);

    let unscoped = PathFilter::new(None, true);
    let report = Report::compute(&history, &loc, &unscoped, NOW);
    assert!(!report.ownership_scoped);
    assert_eq!(report.authors.len(), 2);
}

#[test]
fn silos_and_overlap() {
    let metas: Vec<CommitMeta> = (0..6).map(|i| meta("Alice", i, i < 2, false)).collect();
    let changes: Vec<FileChange> = (0..6).map(|i| change("src/silo.rs", i as usize)).collect();
    let history = History { metas, changes, window_commits: 6 };
    let loc = vec![("src/silo.rs".to_string(), 500)];
    let report = Report::compute(&history, &loc, &PathFilter::new(None, true), NOW);
    let silos = report.silos();
    assert_eq!(silos.len(), 1);
    assert_eq!(silos[0].path, "src/silo.rs");
    // 6 changes, 2 bug fixes → high churn AND high bug.
    assert_eq!(report.churn_bug_overlap(), vec!["src/silo.rs"]);
}

#[test]
fn files_sorted_by_churn_then_path_and_authors_sorted() {
    let metas = vec![
        meta("Zoe", 3, false, false),
        meta("Adam", 2, true, false),
        meta("Zoe", 1, true, false),
    ];
    let changes = vec![
        change("b.rs", 0),
        change("a.rs", 0),
        change("c.rs", 1),
        change("c.rs", 2),
        change("b.rs", 1),
    ];
    let history = History { metas, changes, window_commits: 3 };
    let report = Report::compute(&history, &vec![], &PathFilter::new(None, false), NOW);
    let paths: Vec<&str> = report.files.iter().map(|f| f.path.as_str()).collect();
    assert_eq!(paths, vec!["b.rs", "c.rs", "a.rs"]);
    assert_eq!(report.files[0].authors, vec!["Adam".to_string(), "Zoe".to_string()]);
    // bug clusters: c.rs (2) before b.rs (1)
    assert_eq!(report.bug_clusters, vec![1, 0]);
    // no line counts: no hotspots, max_loc defaults to 1
    assert!(report.hotspots.is_empty());
    assert_eq!(report.max_loc, 1);
    // authors: Zoe 2, Adam 1
    assert_eq!(report.authors[0].name, "Zoe");
    assert_eq!(report.authors[1].name, "Adam");
}

#[test]
fn last_line_count_entry_wins_and_empty_files_are_not_hotspots() {
    let metas = vec![meta("A", 1, false, false), meta("A", 2, false, false)];
    let changes = vec![change("x", 0), change("x", 1), change("y", 0), change("y", 1)];
    let history = History { metas, changes, window_commits: 2 };
    let loc = vec![("x".to_string(), 3), ("x".to_string(), 7), ("y".to_string(), 0)];
    let report = Report::compute(&history, &loc, &PathFilter::new(None, false), NOW);
    assert_eq!(report.files[0].path, "x");
    assert_eq!(report.files[0].loc, Some(7));
    assert_eq!(report.files[1].loc, Some(0));
    assert_eq!(report.hotspots, vec![0]);
    assert_eq!(report.max_loc, 7);
}

#[test]
fn firefight_keeps_five_newest_summaries_and_verdicts() {
    let mut metas: Vec<CommitMeta> = (0..8)
        .map(|i| {
            let mut m = meta("A", i, false, true);
            m.summary = format!("revert {i}");
            m
        })
        .collect();
    metas.push(meta("A", 400, false, true)); // older than a year
    let history = History { metas, changes: vec![], window_commits: 0 };
    let report = Report::compute(&history, &vec![], &PathFilter::new(None, true), NOW);
    assert_eq!(report.firefight.count_last_year, 8);
    assert_eq!(
        report.firefight.recent,
        vec!["revert 0", "revert 1", "revert 2", "revert 3", "revert 4"]
    );
    assert_eq!(
        report.firefight_verdict(),
        "elevated revert/hotfix rate — review test and deploy reliability"
    );
}

#[test]
fn velocity_groups_commits_by_month() {
    // 2025-01-15, 2025-01-20, 2025-03-01 (UTC)
    let times = [1_736_899_200i64, 1_737_331_200, 1_740_787_200];
    let metas: Vec<CommitMeta> = times
        .iter()
        .map(|&t| CommitMeta {
            author: "A".into(),
            time: t,
            summary: String::new(),
            is_merge: false,
            is_bugfix: false,
            is_firefight: false,
        })
        .collect();
    let history = History { metas, changes: vec![], window_commits: 0 };
    let report = Report::compute(&history, &vec![], &PathFilter::new(None, true), NOW);
    assert_eq!(
        report.velocity.months,
        vec![("2025-01".to_string(), 2), ("2025-03".to_string(), 1)]
    );
    assert!(report.velocity.trend == Trend::Sparse);
    assert_eq!(Trend::Sparse.describe(), "not enough history for a trend");
}

#[test]
fn merges_do_not_count_for_full_history_ownership() {
    let mut merge = meta("Merger", 1, false, false);
    merge.is_merge = true;
    let metas = vec![merge, meta("Dev", 2, false, false)];
    let history = History { metas, changes: vec![], window_commits: 1 };
    let report = Report::compute(&history, &vec![], &PathFilter::new(None, true), NOW);
    assert_eq!(report.authors.len(), 1);
    assert_eq!(report.authors[0].name, "Dev");
    assert_eq!(report.ownership_total, 1);
    assert_eq!(report.total_commits, 2);
    assert_eq!(report.bus_factor_flags(), (true, false));
}

fn hand_report(files: Vec<FileMetrics>) -> Report {
    Report {
        files,
        hotspots: vec![],
        bug_clusters: vec![],
        authors: vec![],
        ownership_scoped: false,
        ownership_total: 1,
        total_commits: 0,
        active_authors_last_year: 0,
        velocity: Velocity { months: vec![], trend: Trend::Sparse },
        firefight: Firefight { count_last_year: 0, recent: vec![] },
        now: NOW,
        max_churn: 1,
        max_loc: 1,
    }
}

fn sole_author_file(path: &str, churn: u32) -> FileMetrics {
    FileMetrics {
        path: path.to_string(),
        churn,
        bug_fixes: 0,
        authors: vec!["Alice".to_string()],
        last_touched: NOW,
        loc: None,
    }
}

#[test]
fn silos_are_ranked_by_churn_with_ties_in_table_order() {
    let mut shared = sole_author_file("shared.rs", 9);
    shared.authors.push("Bob".to_string());
    let report = hand_report(vec![
        sole_author_file("five.rs", 5),
        sole_author_file("six.rs", 6),
        shared,
        sole_author_file("four.rs", 4),
        sole_author_file("six_too.rs", 6),
    ]);
    let silos: Vec<&str> = report.silos().iter().map(|f| f.path.as_str()).collect();
    assert_eq!(silos, vec!["six.rs", "six_too.rs", "five.rs"]);
}

#[test]
fn trend_handles_counts_beyond_32_bits_in_total() {
    let big = 3_000_000_000u32;
    // two months (one complete): too few
    assert!(classify_trend(&months(&[big, big])) == Trend::Sparse);
    // seven equal complete months of three billion commits each
    assert!(classify_trend(&months(&[big, big, big, big, big, big, big, 1])) == Trend::Steady);
    // alternating extremes are spiky
    assert!(classify_trend(&months(&[1, big, 1, big, 1, big, 1, big, 1])) == Trend::Spiky);
    // a collapse that stays low is a cliff
    assert!(
        classify_trend(&months(&[big, big, big, big, big, big, 3, 3, 3, 1])) == Trend::Cliff
    );
    // a gradual decline, scaled up
    let m = 300_000_000u32;
    let declining = [12 * m, 11 * m, 10 * m, 9 * m, 8 * m, 5 * m, 4 * m, 3 * m, 1];
    assert!(classify_trend(&months(&declining)) == Trend::Declining);
}

#[test]
fn trend_ignores_the_current_month() {
    let steady = [5, 5, 6, 5, 6, 5, 5];
    for last in [0u32, 1, 1000, u32::MAX] {
        let mut counts = steady.to_vec();
        counts.push(last);
        assert!(classify_trend(&months(&counts)) == Trend::Steady);
    }
}

#[test]
fn trend_is_sparse_below_seven_months() {
    assert!(classify_trend(&months(&[9, 9, 9, 9, 9, 9])) == Trend::Sparse);
    assert!(classify_trend(&months(&[9, 9, 9, 9, 9, 9, 9])) == Trend::Steady);
}

/// The churn×size hotspot score of each file, as the program computes it.
fn scores(report: &Report) -> Vec<f64> {
    let max_churn = f64::from(report.max_churn);
    let max_loc = report.max_loc as f64;
    report
        .files
        .iter()
        .map(|f| match f.loc {
            Some(l) if f.churn >= 2 && l > 0 => {
                100.0 * (f64::from(f.churn) / max_churn) * ((1.0 + l as f64).ln()) / (1.0 + max_loc).ln()
            }
            _ => 0.0,
        })
        .collect()
}

#[test]
fn hotspots_are_ranked_by_score() {
    // a.rs: churn 5, one line (score about 10); b.rs: churn 4, 1000 lines
    // (score 80).
    let metas: Vec<CommitMeta> = (0..5).map(|i| meta("Alice", 10 - i, false, false)).collect();
    let mut changes: Vec<FileChange> = (0..5).map(|i| change("a.rs", i as usize)).collect();
    changes.extend((0..4).map(|i| change("b.rs", i as usize)));
    let history = History { metas, changes, window_commits: 5 };
    let loc = vec![("a.rs".to_string(), 1), ("b.rs".to_string(), 1000)];
    let mut report = Report::compute(&history, &loc, &PathFilter::new(None, false), NOW);
    assert_eq!(report.files[0].path, "a.rs");
    assert_eq!(report.files[1].path, "b.rs");
    let s = scores(&report);
    assert!((s[0] - 10.03).abs() < 0.01, "{}", s[0]);
    assert!((s[1] - 80.0).abs() < 1e-9, "{}", s[1]);
    let keys: Vec<u64> = s.iter().map(|x| x.to_bits()).collect();
    report.rank_hotspots(&keys);
    assert_eq!(report.hotspots, vec![1, 0]);
    // nothing else changes
    assert_eq!(report.files[0].path, "a.rs");
    assert_eq!(report.total_commits, 5);
}

#[test]
fn hotspot_ranking_keeps_table_order_on_ties_and_skips_cold_files() {
    let hot = |path: &str, churn: u32, loc: Option<usize>| {
        let mut f = sole_author_file(path, churn);
        f.loc = loc;
        f
    };
    let mut report = hand_report(vec![
        hot("a.rs", 9, Some(10)),
        hot("b.rs", 8, None),
        hot("c.rs", 7, Some(10)),
        hot("d.rs", 1, Some(10)),
        hot("e.rs", 6, Some(10)),
    ]);
    report.rank_hotspots(&vec![5, 99, 7, 99, 7]);
    assert_eq!(report.hotspots, vec![2, 4, 0]);
}
