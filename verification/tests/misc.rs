use local_git_ops::cli::{export_format, window_desc, Cli, ExportFormat};
use local_git_ops::loc::{count_lines, line_entry};
use local_git_ops::metrics::{Risk, Trend};
use local_git_ops::render::{
    badge, bar_width, bus_factor_verdict, contributors_severity, firefight_severity,
    first_shown_month, hidden_contributors, trend_severity, verdict, BusFactor,
};

fn cli(commits: Option<usize>, days: Option<u32>) -> Cli {
    Cli {
        commits,
        days,
        path: None,
        no_auto_scope: false,
        no_default_filters: false,
        exclude_path: vec![],
        exclude_author: vec![],
        exclude_bots: false,
        top: 20,
        export: None,
        repo: ".".to_string(),
    }
}

#[test]
fn counts_lines() {
    assert_eq!(count_lines(b""), 0);
    assert_eq!(count_lines(b"one\ntwo\n"), 2);
    assert_eq!(count_lines(b"one\ntwo"), 2);
}

#[test]
fn line_entries_skip_binary_and_huge_blobs() {
    assert_eq!(line_entry("a\u{7}.rs", false, 5, b"x\ny\n\n"), Some(("a.rs".to_string(), 3)));
    assert_eq!(line_entry("a.bin", true, 5, b"x"), None);
    assert_eq!(line_entry("big.txt", false, 10 * 1024 * 1024 + 1, b"x"), None);
    assert_eq!(line_entry("edge.txt", false, 10 * 1024 * 1024, b"x"), Some(("edge.txt".to_string(), 1)));
}

#[test]
fn max_commits_defaults() {
    assert_eq!(cli(Some(7), Some(3)).max_commits(), 7);
    assert_eq!(cli(None, Some(3)).max_commits(), usize::MAX);
    assert_eq!(cli(None, None).max_commits(), 100);
}

#[test]
fn scope_choice() {
    let mut c = cli(None, None);
    assert_eq!(c.scope(Some("sub/dir".to_string())), Some("sub/dir".to_string()));
    c.no_auto_scope = true;
    assert_eq!(c.scope(Some("sub/dir".to_string())), None);
    c.path = Some("/src/".to_string());
    assert_eq!(c.scope(None), Some("src".to_string()));
    c.path = Some("//".to_string());
    assert_eq!(c.scope(Some("x".to_string())), None);
}

#[test]
fn window_descriptions() {
    assert_eq!(window_desc(Some(30), Some(50), 12), "last 30 days (max 50 commits)");
    assert_eq!(window_desc(Some(30), None, 12), "last 30 days (12 commits)");
    assert_eq!(window_desc(None, Some(50), 12), "last 12 non-merge commits");
    assert_eq!(window_desc(None, None, 0), "last 0 non-merge commits");
}

#[test]
fn export_format_by_extension() {
    assert_eq!(export_format("report.html"), ExportFormat::Html);
    assert_eq!(export_format("out/report.htm"), ExportFormat::Html);
    assert_eq!(export_format("report.md"), ExportFormat::Markdown);
    assert_eq!(export_format("report"), ExportFormat::Markdown);
    assert_eq!(export_format(".html"), ExportFormat::Markdown);
    assert_eq!(export_format("a.html/report"), ExportFormat::Markdown);
    assert_eq!(export_format("report.HTML"), ExportFormat::Markdown);
}

#[test]
fn severities_and_verdicts() {
    assert!(trend_severity(Trend::Steady) == Risk::Watch);
    assert!(trend_severity(Trend::Spiky) == Risk::High);
    assert!(trend_severity(Trend::Cliff) == Risk::Critical);
    assert!(firefight_severity(6) == Risk::Watch);
    assert!(firefight_severity(7) == Risk::High);
    assert!(firefight_severity(25) == Risk::Critical);
    assert!(contributors_severity(1, 4) == Risk::High);
    assert!(contributors_severity(2, 4) == Risk::Watch);
    assert!(bus_factor_verdict((true, true)) == BusFactor::Crisis);
    assert!(bus_factor_verdict((true, false)) == BusFactor::SingleOwner);
    assert!(bus_factor_verdict((false, true)) == BusFactor::Departed);
    assert!(bus_factor_verdict((false, false)) == BusFactor::Healthy);
}

#[test]
fn table_windows_and_bars() {
    assert_eq!(first_shown_month(30), 6);
    assert_eq!(first_shown_month(24), 0);
    assert_eq!(hidden_contributors(17), 2);
    assert_eq!(hidden_contributors(3), 0);
    assert_eq!(bar_width(10, 10), 40);
    assert_eq!(bar_width(1, 3), 14);
    assert_eq!(bar_width(0, 0), 0);
}

#[test]
fn html_badge_and_verdict_markup() {
    assert_eq!(badge(Risk::High), "<span class=\"badge high\">HIGH</span>");
    let mut h = String::from("x");
    verdict(&mut h, "warn", "Trend: steady.");
    assert_eq!(h, "x<p class=\"verdict warn\">Trend: steady.</p>\n");
}
