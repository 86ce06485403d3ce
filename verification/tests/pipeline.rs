//! The analysis pipeline driven through the library: raw commits as the
//! repository reports them, newest first, through window selection, diff
//! assembly, line counting and aggregation.

use local_git_ops::filter::{AuthorFilter, PathFilter};
use local_git_ops::history::{assemble, select_window, History, RawCommit, WindowOpts};
use local_git_ops::loc::line_entry;
use local_git_ops::metrics::Report;
use local_git_ops::export::ReportCells;
use local_git_ops::html_export::html_report;
use local_git_ops::markdown_export::markdown_report;
use local_git_ops::render::Context;
use local_git_ops::sanitize::markdown;

const DAY: i64 = 86_400;
const NOW: i64 = 1_780_000_000;

struct Commit {
    author: &'static str,
    days_back: i64,
    msg: &'static str,
    file: &'static str,
    content: &'static str,
}

/// Builds the history of a linear repository whose commits each change one
/// file, given oldest first, and the line counts of the files at HEAD.
fn run(commits: &[Commit], max_commits: usize, authors: AuthorFilter) -> (History, Vec<(String, usize)>) {
    let newest_first: Vec<&Commit> = commits.iter().rev().collect();
    let raws: Vec<RawCommit> = newest_first
        .iter()
        .enumerate()
        .map(|(i, c)| RawCommit {
            author: Some(c.author.to_string()),
            time: NOW - c.days_back * DAY,
            summary: Some(c.msg.lines().next().unwrap_or("").to_string()),
            message: c.msg.to_string(),
            parent_count: if i + 1 == newest_first.len() { 0 } else { 1 },
        })
        .collect();
    let opts = WindowOpts { max_commits, days: None, now: NOW, authors };
    let selection = select_window(&raws, &opts);
    let diffs: Vec<Vec<String>> = selection
        .window
        .iter()
        .map(|&(raw, _)| vec![newest_first[raw].file.to_string()])
        .collect();
    let history = assemble(selection, &diffs);
    // HEAD content: the newest version of each file
    let mut head: Vec<(&str, &str)> = Vec::new();
    for c in commits {
        head.retain(|(f, _)| *f != c.file);
        head.push((c.file, c.content));
    }
    let loc = head
        .iter()
        .filter_map(|(f, content)| line_entry(f, false, content.len() as u64, content.as_bytes()))
        .collect();
    (history, loc)
}

fn c(author: &'static str, days_back: i64, msg: &'static str, file: &'static str, content: &'static str) -> Commit {
    Commit { author, days_back, msg, file, content }
}

#[test]
fn full_pipeline_on_synthetic_repo() {
    let commits = [
        c("Alice", 10, "initial commit", "src/core.rs", "fn a() {}\n"),
        c("Alice", 8, "fix bug in core", "src/core.rs", "fn a() {}\nfn b() {}\n"),
        c("Bob", 5, "add api", "src/api.rs", "fn api() {}\n"),
        c("Bob", 2, "Revert \"add api\"", "src/api.rs", "// reverted\n"),
        c("Alice", 1, "bump lockfile", "Cargo.lock", "locked\n"),
    ];
    let (hist, line_counts) = run(&commits, 100, AuthorFilter::default());
    assert_eq!(hist.metas.len(), 5);
    assert_eq!(hist.window_commits, 5);
    assert!(line_counts.contains(&("src/core.rs".to_string(), 2)));

    let report = Report::compute(&hist, &line_counts, &PathFilter::new(None, true), NOW);
    assert!(report.files.iter().all(|f| f.path != "Cargo.lock"));
    let core = report.files.iter().find(|f| f.path == "src/core.rs").expect("core.rs tracked");
    assert_eq!(core.churn, 2);
    assert_eq!(core.bug_fixes, 1);
    assert_eq!(core.authors, vec!["Alice".to_string()]);
    let core_idx = report.files.iter().position(|f| f.path == "src/core.rs").unwrap();
    assert!(report.hotspots.contains(&core_idx), "churn ≥ 2 and present at HEAD → hotspot");

    assert_eq!(report.total_commits, 5);
    assert_eq!(report.authors[0].name, "Alice");
    assert_eq!(report.authors[0].commits, 3);
    assert_eq!(report.firefight.count_last_year, 1);
    assert_eq!(report.firefight.recent, vec!["Revert \"add api\"".to_string()]);
    // the ownership table accounts for every counted commit
    let total: u32 = report.authors.iter().map(|a| a.commits).sum();
    assert_eq!(total, report.ownership_total);
    // every reported file was changed, has an author, and no more fixes than changes
    assert!(report.files.iter().all(|f| f.churn >= 1 && !f.authors.is_empty() && f.bug_fixes <= f.churn));
}

#[test]
fn window_cap_and_scope() {
    let mut commits = Vec::new();
    for i in 0..6 {
        commits.push(c("Alice", 10 - i, "change", "app/main.rs", "// rev\n"));
        commits.push(c("Alice", 10 - i, "docs", "docs/guide.md", "rev\n"));
    }
    let (hist, line_counts) = run(&commits, 4, AuthorFilter::default());
    assert_eq!(hist.window_commits, 4);
    assert_eq!(hist.metas.len(), 12);

    let scoped = PathFilter::new(Some("app".into()), true);
    let report = Report::compute(&hist, &line_counts, &scoped, NOW);
    assert_eq!(report.files.len(), 1);
    assert_eq!(report.files[0].path, "app/main.rs");
    assert!(report.files.iter().all(|f| f.path.starts_with("app/")));
}

#[test]
fn hostile_metadata_is_sanitized() {
    let commits = [
        c("Mallory|`tick", 2, "initial commit", "src/a.rs", "fn a() {}\n"),
        c("Mallory|`tick", 1, "Revert \"\u{1b}[31mevil\u{1b}]0;pwned\u{7}\"", "src/a.rs", "// reverted\n"),
    ];
    let (hist, line_counts) = run(&commits, 100, AuthorFilter::default());
    for meta in &hist.metas {
        assert!(!meta.summary.chars().any(char::is_control), "summary: {:?}", meta.summary);
        assert!(!meta.author.chars().any(char::is_control));
    }
    assert_eq!(hist.metas[0].summary, "Revert \"[31mevil]0;pwned\"");
    let report = ranked(Report::compute(&hist, &line_counts, &PathFilter::new(None, true), NOW));
    assert_eq!(markdown(&report.authors[0].name), "Mallory\\|'tick");
    let ctx = context("last 2 non-merge commits");
    let md = markdown_report(&report, &ctx, &cells(&report));
    assert!(md.contains("Mallory\\|'tick"), "author escaped in export");
    assert!(!md.contains('\u{1b}'));
}

#[test]
fn excluded_authors_vanish_from_all_metrics() {
    let commits = [
        c("Alice", 6, "initial commit", "src/core.rs", "fn a() {}\n"),
        c("Alice", 5, "more core", "src/core.rs", "fn a() {}\nfn b() {}\n"),
        c("dependabot[bot]", 4, "bump deps", "deps/manifest.txt", "v1\n"),
        c("dependabot[bot]", 3, "bump deps again", "deps/manifest.txt", "v2\n"),
        c("Mallory", 2, "noise", "src/extra.rs", "fn x() {}\n"),
    ];
    let authors = AuthorFilter::new(&["mallory".to_string()], true);
    let (hist, line_counts) = run(&commits, 100, authors);
    assert_eq!(hist.metas.len(), 2);
    assert!(hist.metas.iter().all(|m| m.author == "Alice"));

    let report = Report::compute(&hist, &line_counts, &PathFilter::new(None, true), NOW);
    assert_eq!(report.authors.len(), 1);
    assert_eq!(report.authors[0].name, "Alice");
    assert!(report.files.iter().all(|f| !f.path.starts_with("deps/")));
    assert!(report.files.iter().all(|f| f.path != "src/extra.rs"));
    // Velocity counts only the remaining commits.
    assert_eq!(report.velocity.months.iter().map(|(_, n)| *n).sum::<u32>(), 2);
}

#[test]
fn exclude_paths_and_scoped_ownership() {
    let commits = [
        c("Alice", 6, "core work", "src/core.rs", "fn a() {}\n"),
        c("Alice", 5, "more core", "src/core.rs", "fn a() {}\nfn b() {}\n"),
        c("Bob", 4, "write docs", "docs/guide.txt", "guide\n"),
        c("Bob", 3, "notes", "NOTES.md", "notes\n"),
    ];
    let (hist, line_counts) = run(&commits, 100, AuthorFilter::default());
    let filter = PathFilter::new(None, true)
        .with_excludes(&["docs/".to_string(), "*.md".to_string()])
        .unwrap();
    let report = Report::compute(&hist, &line_counts, &filter, NOW);
    assert!(report.files.iter().all(|f| f.path.starts_with("src/")));
    assert!(report.ownership_scoped);
    assert_eq!(report.authors.len(), 1);
    assert_eq!(report.authors[0].name, "Alice");
    assert_eq!(report.authors[0].commits, 2);

    let report = Report::compute(&hist, &line_counts, &PathFilter::new(None, true), NOW);
    assert!(!report.ownership_scoped);
    assert_eq!(report.authors.len(), 2);
}

/// The report with its hotspots ranked by score, as the program does.
fn ranked(mut report: Report) -> Report {
    let keys: Vec<u64> = score_of(&report).iter().map(|s| s.to_bits()).collect();
    report.rank_hotspots(&keys);
    report
}

/// The churn×size hotspot score of each file, as the program computes it.
fn score_of(report: &Report) -> Vec<f64> {
    let max_churn = f64::from(report.max_churn);
    let max_loc = report.max_loc as f64;
    report
        .files
        .iter()
        .map(|f| match f.loc {
            Some(l) if f.churn >= 2 && l > 0 => {
                100.0 * (f64::from(f.churn) / max_churn) * ((1.0 + l as f64).ln()) / (1.0 + max_loc).ln()
            }
            _ => 0.0,
        })
        .collect()
}

/// The presentation cells as the program formats them.
fn cells(report: &Report) -> ReportCells {
    let score = score_of(report);
    let max_month = report.velocity.months.iter().map(|(_, c)| *c).max().unwrap_or(1).max(1) as f64;
    ReportCells {
        scores: score.iter().map(|s| format!("{s:.0}")).collect(),
        high_scores: score.iter().map(|&s| s >= 50.0).collect(),
        shares: report
            .authors
            .iter()
            .map(|a| format!("{:.0}", f64::from(a.commits) / f64::from(report.ownership_total) * 100.0))
            .collect(),
        bars: report
            .velocity
            .months
            .iter()
            .map(|(_, c)| format!("{:.0}", (f64::from(*c) / max_month * 100.0).max(1.0)))
            .collect(),
        per_month: format!("{:.1}", report.firefight.count_last_year as f64 / 12.0),
    }
}

fn context(window_desc: &'static str) -> Context<'static> {
    Context {
        repo_root: "/tmp/example",
        branch: "main",
        scope: None,
        excluded_authors: None,
        window_desc,
        top: 20,
    }
}

#[test]
fn markdown_export_writes_report() {
    let commits = [c("Alice", 1, "initial commit", "src/main.rs", "fn main() {}\n")];
    let (hist, line_counts) = run(&commits, 100, AuthorFilter::default());
    let report = ranked(Report::compute(&hist, &line_counts, &PathFilter::new(None, true), NOW));
    let ctx = context("last 1 non-merge commits");
    let md = markdown_report(&report, &ctx, &cells(&report));
    assert!(md.starts_with("# Repository Health Report"));
    assert!(md.contains("## 👥 Ownership & Bus Factor"));
    assert!(md.contains("| Alice | 1 | 100% |"));
}

#[test]
fn html_export_writes_escaped_report() {
    // Unix filenames may legally contain HTML metacharacters.
    let hostile_file = "src/<script>alert(1)<.rs";
    let commits = [
        c("Alice & Co", 3, "initial commit", hostile_file, "fn a() {}\n"),
        c("Alice & Co", 2, "fix bug here", hostile_file, "fn a() {}\nfn b() {}\n"),
        c("Alice & Co", 1, "more work", hostile_file, "fn a() {}\nfn b() {}\nfn c() {}\n"),
    ];
    let (hist, line_counts) = run(&commits, 100, AuthorFilter::default());
    let report = ranked(Report::compute(&hist, &line_counts, &PathFilter::new(None, true), NOW));
    let ctx = context("last 3 non-merge commits");
    let out = html_report(&report, &ctx, &cells(&report));
    assert!(out.starts_with("<!DOCTYPE html>"));
    assert!(out.contains("<h2>👥 Ownership &amp; Bus Factor"));
    // Hostile path and author are escaped, never raw.
    assert!(!out.contains("<script>"));
    assert!(out.contains("src/&lt;script&gt;alert(1)&lt;.rs"));
    assert!(out.contains("Alice &amp; Co"));
    // Velocity bar rendered.
    assert!(out.contains("class=\"bar\""));
}

#[test]
fn html_export_frame_scope_and_exclusions() {
    let commits = [
        c("Alice", 3, "initial commit", "src/a.rs", "fn a() {}\n"),
        c("Bob", 2, "fix crash", "src/a.rs", "fn a() {}\nfn b() {}\n"),
        c("Alice", 1, "revert the crash fix", "src/a.rs", "fn a() {}\n"),
    ];
    let (hist, line_counts) = run(&commits, 100, AuthorFilter::default());
    let report = ranked(Report::compute(&hist, &line_counts, &PathFilter::new(None, true), NOW));
    let plain = context("last 3 non-merge commits");
    let scoped = Context { scope: Some("src"), excluded_authors: Some("dependabot[bot]"), ..context("last 3 non-merge commits") };
    let cells = cells(&report);
    let a = html_report(&report, &plain, &cells);
    let b = html_report(&report, &scoped, &cells);
    assert!(a.ends_with("</main>\n</body>\n</html>\n"));
    assert!(!a.contains("<strong>Scope:</strong>"));
    assert!(!a.contains("<strong>Excluded authors:</strong>"));
    let scope_item = "<li><strong>Scope:</strong> <code>src/</code></li>\n";
    let excluded_item = "<li><strong>Excluded authors:</strong> dependabot[bot]</li>\n";
    assert!(b.contains(scope_item));
    assert!(b.contains(excluded_item));
    assert_eq!(b.replacen(scope_item, "", 1).replacen(excluded_item, "", 1), a);
    assert!(a.contains("<p>1 revert/hotfix/rollback commits (0.1/month).</p>"));
    assert!(a.contains("<li><code>revert the crash fix</code></li>"));
    assert!(a.contains("<td class=\"num\">3</td>"));
}

#[test]
fn markdown_export_sections_in_order() {
    let commits = [
        c("Alice", 3, "initial commit", "src/a.rs", "fn a() {}\n"),
        c("Alice", 2, "fix crash", "src/a.rs", "fn a() {}\nfn b() {}\n"),
        c("Alice", 1, "more", "src/a.rs", "fn a() {}\nfn b() {}\nfn c() {}\n"),
    ];
    let (hist, line_counts) = run(&commits, 100, AuthorFilter::default());
    let report = ranked(Report::compute(&hist, &line_counts, &PathFilter::new(None, true), NOW));
    let ctx = Context { scope: Some("src"), ..context("last 3 non-merge commits") };
    let md = markdown_report(&report, &ctx, &cells(&report));
    let order = [
        "# Repository Health Report\n\n",
        "- **Scope:** `src/`\n",
        "## 🔥 Maintenance Hotspots",
        "## 📈 Code Churn",
        "## 🐛 Bug Clusters",
        "## 👥 Ownership & Bus Factor",
        "## 📊 Commit Velocity",
        "## 🚒 Firefighting",
    ];
    let mut at = 0;
    for part in order {
        let found = md[at..].find(part).map(|i| i + at);
        assert!(found.is_some(), "missing {part:?}");
        at = found.unwrap();
    }
    assert!(md.contains("| `src/a.rs` | 3 | 1 | yesterday |"));
    assert!(md.contains("| `src/a.rs` | 1 | 3 |"));
    assert!(md.ends_with("> occasional firefighting — normal.\n") || md.ends_with("commit messages don't say.\n"));
}
