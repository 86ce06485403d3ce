//! The Markdown report: the sections of the terminal dashboard as
//! GitHub-flavored Markdown tables, with verdicts as blockquotes. Paths,
//! author names and commit summaries pass through the Markdown escaping of
//! `sanitize`; cells formatted by the caller go in as they are.
use vstd::prelude::*;
use crate::export::{
    cells_fit, date_text, first_month, lines_of, push_decimal, report_date, shown, ReportCells,
};
use crate::metrics::{
    days_ago, days_ago_text, firefight_verdict_of, ranked_silos, risk_of, silo, silo_table,
    trend_text, Report,
};
use crate::render::{bus_factor_of, bus_factor_verdict, first_shown_month, risk_label, BusFactor, Context};
use crate::sanitize::{
    absent, always_escaped, free_of_controls, law_markdown_is_inert, markdown, markdown_escaped, stripped,
};
use crate::text::{append_str, decimal, has_prefix, join_strings, joined, views};

verus! {

/// A value from the repository, as the report shows it.
pub open spec fn md(s: Seq<char>) -> Seq<char> {
    markdown_escaped(stripped(s))
}

/// A value in backticks.
pub open spec fn ticked(s: Seq<char>) -> Seq<char> {
    "`"@ + md(s) + "`"@
}

fn push_md(h: &mut String, s: &str)
    ensures
        final(h)@ == old(h)@ + md(s@),
{
    let e = markdown(s);
    append_str(h, e.as_str());
}

fn push_ticked(h: &mut String, s: &str)
    ensures
        final(h)@ == old(h)@ + ticked(s@),
{
    append_str(h, "`");
    push_md(h, s);
    append_str(h, "`");
    proof {
        assert(h@ =~= old(h)@ + ticked(s@));
    }
}

/// A Markdown table row: the cells between `| `, ` | ` and ` |`.
pub open spec fn md_cells(cells: Seq<Seq<char>>) -> Seq<char>
    decreases cells.len(),
{
    if cells.len() <= 1 {
        "| "@ + cells[0]
    } else {
        md_cells(cells.drop_last()) + " | "@ + cells.last()
    }
}

pub open spec fn md_row(cells: Seq<Seq<char>>) -> Seq<char> {
    md_cells(cells) + " |\n"@
}

proof fn lemma_md_cells_push(cells: Seq<Seq<char>>, x: Seq<char>)
    requires
        cells.len() >= 1,
    ensures
        md_cells(cells.push(x)) == md_cells(cells) + " | "@ + x,
{
    assert(cells.push(x).drop_last() =~= cells);
}

// ---- table headers ----
pub open spec fn hotspot_header_md() -> Seq<char> {
    "| Risk | File | Score | Changes | Lines | Bug fixes | Authors |\n"@
}

pub open spec fn churn_header_md() -> Seq<char> {
    "| File | Changes | Authors | Last touched |\n"@
}

pub open spec fn bug_header_md() -> Seq<char> {
    "| File | Bug fixes | Total changes |\n"@
}

pub open spec fn author_header_md() -> Seq<char> {
    "| Author | Commits | Share | Last active |\n"@
}

pub open spec fn month_header_md() -> Seq<char> {
    "| Month | Commits |\n"@
}

// ---- header ----
pub open spec fn scope_line_md(scope: Option<&str>) -> Seq<char> {
    match scope {
        Some(s) => "- **Scope:** `"@ + s@ + "/`\n"@,
        None => Seq::empty(),
    }
}

/// The title and the first facts: repository and window.
#[verifier::opaque]
pub open spec fn header_top_md(root: Seq<char>, branch: Seq<char>, window: Seq<char>) -> Seq<char> {
    "# Repository Health Report\n\n"@ + "- **Repository:** `"@ + root + "` @ `"@ + branch + "`\n"@
        + "- **Window:** "@ + window + "\n"@
}

/// The last facts: history size and generation date.
#[verifier::opaque]
pub open spec fn header_bottom_md(r: Report) -> Seq<char> {
    "- **History:** "@ + decimal(r.total_commits as nat) + " commits\n"@ + "- **Generated:** "@ + date_text(r.now)
        + " by local-git-ops\n\n"@
}

/// The title and the list of report facts.
pub open spec fn header_md(r: Report, ctx: Context) -> Seq<char> {
    header_top_md(ctx.repo_root@, ctx.branch@, ctx.window_desc@) + scope_line_md(ctx.scope) + header_bottom_md(r)
}

fn header(report: &Report, ctx: &Context) -> (s: String)
    ensures
        s@ == header_md(*report, *ctx),
{
    proof {
        reveal(header_top_md);
        reveal(header_bottom_md);
    }
    let date = report_date(report.now);
    let mut top = String::new();
    append_str(&mut top, "# Repository Health Report\n\n");
    proof {
        assert(top@ =~= "# Repository Health Report\n\n"@);
    }
    append_str(&mut top, "- **Repository:** `");
    append_str(&mut top, ctx.repo_root);
    append_str(&mut top, "` @ `");
    append_str(&mut top, ctx.branch);
    append_str(&mut top, "`\n");
    append_str(&mut top, "- **Window:** ");
    append_str(&mut top, ctx.window_desc);
    append_str(&mut top, "\n");
    let mut scope = String::new();
    match ctx.scope {
        Some(v) => {
            append_str(&mut scope, "- **Scope:** `");
            append_str(&mut scope, v);
            append_str(&mut scope, "/`\n");
        },
        None => {},
    }
    proof {
        assert(scope@ =~= scope_line_md(ctx.scope));
    }
    let mut bottom = String::new();
    append_str(&mut bottom, "- **History:** ");
    proof {
        assert(bottom@ =~= "- **History:** "@);
    }
    push_decimal(&mut bottom, report.total_commits as u128);
    append_str(&mut bottom, " commits\n");
    append_str(&mut bottom, "- **Generated:** ");
    append_str(&mut bottom, date.as_str());
    append_str(&mut bottom, " by local-git-ops\n\n");
    let mut s = top;
    append_str(&mut s, scope.as_str());
    append_str(&mut s, bottom.as_str());
    s
}

// ---- hotspots ----
pub open spec fn hotspot_row(r: Report, c: ReportCells, i: int) -> Seq<char> {
    let f = r.files@[i];
    "| "@ + risk_label(risk_of(c.high_scores@[i], f.bug_fixes)) + " | "@ + ticked(f.path@) + " | "@ + c.scores@[i]@
        + " | "@ + decimal(f.churn as nat) + " | "@ + decimal(lines_of(f)) + " | "@ + decimal(f.bug_fixes as nat)
        + " | "@ + decimal(f.authors@.len()) + " |\n"@
}

pub open spec fn hotspot_rows(r: Report, c: ReportCells, k: int) -> Seq<char>
    decreases k,
{
    if k <= 0 {
        Seq::empty()
    } else {
        hotspot_rows(r, c, k - 1) + hotspot_row(r, c, r.hotspots@[k - 1] as int)
    }
}

pub open spec fn overlap_md(r: Report) -> Seq<char> {
    if r.overlap_paths().len() == 0 {
        Seq::empty()
    } else {
        "\n> ⚠️ **High-churn AND high-bug — your single biggest risk:** "@ + joined(
            r.overlap_paths().map_values(|p: Seq<char>| ticked(p)),
            ", "@,
        ) + "\n"@
    }
}

#[verifier::opaque]
pub open spec fn hotspots_md(r: Report, c: ReportCells, top: usize) -> Seq<char> {
    if r.hotspots@.len() == 0 {
        "## 🔥 Maintenance Hotspots (churn × size)\n\n"@ + "No hotspots in the analysis window.\n\n"@
    } else {
        "## 🔥 Maintenance Hotspots (churn × size)\n\n"@
            + hotspot_header_md()
            + "|------|------|------:|--------:|------:|----------:|--------:|\n"@
            + hotspot_rows(r, c, shown(r.hotspots@.len() as int, top as int)) + overlap_md(r) + "\n"@
    }
}

fn hotspot_line(report: &Report, cells: &ReportCells, i: usize) -> (s: String)
    requires
        cells_fit(*report, *cells),
        i < report.files@.len(),
    ensures
        s@ == hotspot_row(*report, *cells, i as int),
{
    let f = &report.files[i];
    let mut s = String::new();
    append_str(&mut s, "| ");
    proof {
        assert(s@ =~= "| "@);
    }
    let risk = f.risk(cells.high_scores[i]);
    let label = risk.label();
    proof {
        assert(label@ == risk_label(risk));
    }
    append_str(&mut s, label);
    append_str(&mut s, " | ");
    push_ticked(&mut s, f.path.as_str());
    append_str(&mut s, " | ");
    append_str(&mut s, cells.scores[i].as_str());
    append_str(&mut s, " | ");
    push_decimal(&mut s, f.churn as u128);
    append_str(&mut s, " | ");
    let lines: usize = match f.loc {
        Some(l) => l,
        None => 0,
    };
    push_decimal(&mut s, lines as u128);
    append_str(&mut s, " | ");
    push_decimal(&mut s, f.bug_fixes as u128);
    append_str(&mut s, " | ");
    push_decimal(&mut s, f.authors.len() as u128);
    append_str(&mut s, " |\n");
    s
}

fn overlap_line(report: &Report) -> (s: String)
    requires
        forall|k: int| 0 <= k < report.bug_clusters@.len() ==> (#[trigger] report.bug_clusters@[k]) < report.files@.len(),
    ensures
        s@ == overlap_md(*report),
{
    let overlap = report.churn_bug_overlap();
    let mut s = String::new();
    if overlap.len() == 0 {
        proof {
            assert(views(overlap@).len() == 0);
        }
        return s;
    }
    let mut listed: Vec<String> = Vec::new();
    let mut k: usize = 0;
    while k < overlap.len()
        invariant
            k <= overlap@.len(),
            views(listed@) == views(overlap@).take(k as int).map_values(|p: Seq<char>| ticked(p)),
        decreases overlap@.len() - k,
    {
        let mut c = String::new();
        push_ticked(&mut c, overlap[k].as_str());
        proof {
            assert(c@ =~= ticked(overlap@[k as int]@));
        }
        let ghost before = listed@;
        listed.push(c);
        proof {
            assert(views(listed@) =~= views(before).push(ticked(overlap@[k as int]@)));
            assert(views(overlap@).take(k + 1).map_values(|p: Seq<char>| ticked(p)) =~= views(overlap@).take(
                k as int,
            ).map_values(|p: Seq<char>| ticked(p)).push(ticked(overlap@[k as int]@)));
        }
        k = k + 1;
    }
    proof {
        assert(views(overlap@).take(overlap@.len() as int) =~= views(overlap@));
    }
    let all = join_strings(&listed, ", ");
    append_str(&mut s, "\n> ⚠️ **High-churn AND high-bug — your single biggest risk:** ");
    proof {
        assert(s@ =~= "\n> ⚠️ **High-churn AND high-bug — your single biggest risk:** "@);
    }
    append_str(&mut s, all.as_str());
    append_str(&mut s, "\n");
    s
}

fn hotspots(report: &Report, cells: &ReportCells, top: usize) -> (s: String)
    requires
        cells_fit(*report, *cells),
    ensures
        s@ == hotspots_md(*report, *cells, top),
{
    proof {
        reveal(hotspots_md);
    }
    let mut s = String::new();
    append_str(&mut s, "## 🔥 Maintenance Hotspots (churn × size)\n\n");
    proof {
        assert(s@ =~= "## 🔥 Maintenance Hotspots (churn × size)\n\n"@);
    }
    if report.hotspots.len() == 0 {
        append_str(&mut s, "No hotspots in the analysis window.\n\n");
        return s;
    }
    append_str(&mut s, "| Risk | File | Score | Changes | Lines | Bug fixes | Authors |\n");
    append_str(&mut s, "|------|------|------:|--------:|------:|----------:|--------:|\n");
    let n = if report.hotspots.len() < top { report.hotspots.len() } else { top };
    let mut rows = String::new();
    let mut k: usize = 0;
    while k < n
        invariant
            k <= n,
            n <= report.hotspots@.len(),
            cells_fit(*report, *cells),
            rows@ == hotspot_rows(*report, *cells, k as int),
        decreases n - k,
    {
        let row = hotspot_line(report, cells, report.hotspots[k]);
        append_str(&mut rows, row.as_str());
        k = k + 1;
    }
    append_str(&mut s, rows.as_str());
    let overlap = overlap_line(report);
    append_str(&mut s, overlap.as_str());
    append_str(&mut s, "\n");
    s
}

// ---- churn ----
pub open spec fn churn_row(r: Report, i: int) -> Seq<char> {
    let f = r.files@[i];
    "| "@ + ticked(f.path@) + " | "@ + decimal(f.churn as nat) + " | "@ + decimal(f.authors@.len()) + " | "@
        + days_ago_text(r.now, f.last_touched) + " |\n"@
}

pub open spec fn churn_rows(r: Report, k: int) -> Seq<char>
    decreases k,
{
    if k <= 0 {
        Seq::empty()
    } else {
        churn_rows(r, k - 1) + churn_row(r, k - 1)
    }
}

#[verifier::opaque]
pub open spec fn churn_md(r: Report, top: usize) -> Seq<char> {
    if r.files@.len() == 0 {
        "## 📈 Code Churn (what changes the most)\n\n"@ + "No file changes in the analysis window.\n\n"@
    } else {
        "## 📈 Code Churn (what changes the most)\n\n"@ + churn_header_md()
            + "|------|--------:|--------:|--------------|\n"@ + churn_rows(r, shown(r.files@.len() as int, top as int))
            + "\n> Lockfiles, changelogs and generated code are excluded by default.\n\n"@
    }
}

fn churn_line(report: &Report, i: usize) -> (s: String)
    requires
        i < report.files@.len(),
    ensures
        s@ == churn_row(*report, i as int),
{
    let f = &report.files[i];
    let mut s = String::new();
    append_str(&mut s, "| ");
    proof {
        assert(s@ =~= "| "@);
    }
    push_ticked(&mut s, f.path.as_str());
    append_str(&mut s, " | ");
    push_decimal(&mut s, f.churn as u128);
    append_str(&mut s, " | ");
    push_decimal(&mut s, f.authors.len() as u128);
    append_str(&mut s, " | ");
    let ago = days_ago(report.now, f.last_touched);
    append_str(&mut s, ago.as_str());
    append_str(&mut s, " |\n");
    s
}

fn churn(report: &Report, top: usize) -> (s: String)
    ensures
        s@ == churn_md(*report, top),
{
    proof {
        reveal(churn_md);
    }
    let mut s = String::new();
    append_str(&mut s, "## 📈 Code Churn (what changes the most)\n\n");
    proof {
        assert(s@ =~= "## 📈 Code Churn (what changes the most)\n\n"@);
    }
    if report.files.len() == 0 {
        append_str(&mut s, "No file changes in the analysis window.\n\n");
        return s;
    }
    append_str(&mut s, "| File | Changes | Authors | Last touched |\n");
    append_str(&mut s, "|------|--------:|--------:|--------------|\n");
    let n = if report.files.len() < top { report.files.len() } else { top };
    let mut rows = String::new();
    let mut k: usize = 0;
    while k < n
        invariant
            k <= n,
            n <= report.files@.len(),
            rows@ == churn_rows(*report, k as int),
        decreases n - k,
    {
        let row = churn_line(report, k);
        append_str(&mut rows, row.as_str());
        k = k + 1;
    }
    append_str(&mut s, rows.as_str());
    append_str(&mut s, "\n> Lockfiles, changelogs and generated code are excluded by default.\n\n");
    s
}

// ---- bug clusters ----
pub open spec fn bug_row(r: Report, i: int) -> Seq<char> {
    let f = r.files@[i];
    "| "@ + ticked(f.path@) + " | "@ + decimal(f.bug_fixes as nat) + " | "@ + decimal(f.churn as nat) + " |\n"@
}

pub open spec fn bug_rows(r: Report, k: int) -> Seq<char>
    decreases k,
{
    if k <= 0 {
        Seq::empty()
    } else {
        bug_rows(r, k - 1) + bug_row(r, r.bug_clusters@[k - 1] as int)
    }
}

#[verifier::opaque]
pub open spec fn bugs_md(r: Report, top: usize) -> Seq<char> {
    if r.bug_clusters@.len() == 0 {
        "## 🐛 Bug Clusters (files touched by fix commits)\n\n"@
            + "No bug-related commits matched — check commit message discipline.\n\n"@
    } else {
        "## 🐛 Bug Clusters (files touched by fix commits)\n\n"@ + bug_header_md()
            + "|------|----------:|--------------:|\n"@ + bug_rows(r, shown(r.bug_clusters@.len() as int, top as int))
            + "\n> Depends on commit message discipline; a rough map beats no map.\n\n"@
    }
}

fn bug_line(report: &Report, i: usize) -> (s: String)
    requires
        i < report.files@.len(),
    ensures
        s@ == bug_row(*report, i as int),
{
    let f = &report.files[i];
    let mut s = String::new();
    append_str(&mut s, "| ");
    proof {
        assert(s@ =~= "| "@);
    }
    push_ticked(&mut s, f.path.as_str());
    append_str(&mut s, " | ");
    push_decimal(&mut s, f.bug_fixes as u128);
    append_str(&mut s, " | ");
    push_decimal(&mut s, f.churn as u128);
    append_str(&mut s, " |\n");
    s
}

fn bug_clusters(report: &Report, cells: &ReportCells, top: usize) -> (s: String)
    requires
        cells_fit(*report, *cells),
    ensures
        s@ == bugs_md(*report, top),
{
    proof {
        reveal(bugs_md);
    }
    let mut s = String::new();
    append_str(&mut s, "## 🐛 Bug Clusters (files touched by fix commits)\n\n");
    proof {
        assert(s@ =~= "## 🐛 Bug Clusters (files touched by fix commits)\n\n"@);
    }
    if report.bug_clusters.len() == 0 {
        append_str(&mut s, "No bug-related commits matched — check commit message discipline.\n\n");
        return s;
    }
    append_str(&mut s, "| File | Bug fixes | Total changes |\n");
    append_str(&mut s, "|------|----------:|--------------:|\n");
    let n = if report.bug_clusters.len() < top { report.bug_clusters.len() } else { top };
    let mut rows = String::new();
    let mut k: usize = 0;
    while k < n
        invariant
            k <= n,
            n <= report.bug_clusters@.len(),
            cells_fit(*report, *cells),
            rows@ == bug_rows(*report, k as int),
        decreases n - k,
    {
        let row = bug_line(report, report.bug_clusters[k]);
        append_str(&mut rows, row.as_str());
        k = k + 1;
    }
    append_str(&mut s, rows.as_str());
    append_str(&mut s, "\n> Depends on commit message discipline; a rough map beats no map.\n\n");
    s
}

// ---- ownership ----
pub open spec fn author_row(r: Report, c: ReportCells, k: int) -> Seq<char> {
    let a = r.authors@[k];
    "| "@ + md(a.name@) + " | "@ + decimal(a.commits as nat) + " | "@ + (c.shares@[k]@ + "%"@) + " | "@
        + days_ago_text(r.now, a.last_active) + " |\n"@
}

pub open spec fn author_rows(r: Report, c: ReportCells, k: int) -> Seq<char>
    decreases k,
{
    if k <= 0 {
        Seq::empty()
    } else {
        author_rows(r, c, k - 1) + author_row(r, c, k - 1)
    }
}

pub open spec fn more_md(n: int) -> Seq<char> {
    if n > 15 {
        "\n*… and "@ + decimal((n - 15) as nat) + " more*\n"@
    } else {
        Seq::empty()
    }
}

pub open spec fn bus_md(r: Report, c: ReportCells) -> Seq<char> {
    if r.authors@.len() == 0 {
        Seq::empty()
    } else {
        let name = md(r.authors@[0].name@);
        let share = c.shares@[0]@;
        match bus_factor_of(r.flags()) {
            BusFactor::Crisis => "> 🚨 **Bus factor crisis:** "@ + name + " owns "@ + share
                + "% of commits and has been inactive for 6+ months.\n"@,
            BusFactor::SingleOwner => "> ⚠️ **Bus factor 1:** "@ + name + " owns "@ + share + "% of all commits.\n"@,
            BusFactor::Departed => "> ⚠️ Top all-time contributor "@ + name + " has been inactive for 6+ months.\n"@,
            BusFactor::Healthy => Seq::empty(),
        }
    }
}

pub open spec fn contributors_md(r: Report) -> Seq<char> {
    "> "@ + decimal(r.authors@.len()) + " contributors total, "@ + decimal(r.active_authors_last_year as nat)
        + " active in the last year.\n"@
}

pub open spec fn silo_item(r: Report, i: int) -> Seq<char> {
    ticked(r.files@[i].path@) + " (only "@ + md(r.files@[i].authors@[0]@) + ")"@
}

pub open spec fn silo_items(r: Report) -> Seq<Seq<char>> {
    let ps = ranked_silos(r.files@);
    ps.take(shown(ps.len() as int, 5)).map_values(|i: usize| silo_item(r, i as int))
}

pub open spec fn silos_md(r: Report) -> Seq<char> {
    if ranked_silos(r.files@).len() == 0 {
        Seq::empty()
    } else {
        "> ⚠️ **Knowledge silos** — single-author hot files: "@ + joined(silo_items(r), ", "@) + ".\n"@
    }
}

#[verifier::opaque]
pub open spec fn ownership_md(r: Report, c: ReportCells) -> Seq<char> {
    "## 👥 Ownership & Bus Factor (full history, no merges)\n\n"@ + author_header_md()
        + "|--------|--------:|------:|-------------|\n"@ + author_rows(r, c, shown(r.authors@.len() as int, 15))
        + more_md(r.authors@.len() as int) + "\n"@ + bus_md(r, c) + contributors_md(r) + silos_md(r)
        + ">\n> *Caveat: squash-merge workflows compress authorship to whoever merged.*\n\n"@
}

fn author_line(report: &Report, cells: &ReportCells, k: usize) -> (s: String)
    requires
        cells_fit(*report, *cells),
        k < report.authors@.len(),
    ensures
        s@ == author_row(*report, *cells, k as int),
{
    let a = &report.authors[k];
    let mut s = String::new();
    append_str(&mut s, "| ");
    proof {
        assert(s@ =~= "| "@);
    }
    push_md(&mut s, a.name.as_str());
    append_str(&mut s, " | ");
    push_decimal(&mut s, a.commits as u128);
    append_str(&mut s, " | ");
    let mut share = String::new();
    append_str(&mut share, cells.shares[k].as_str());
    proof {
        assert(share@ =~= cells.shares@[k as int]@);
    }
    append_str(&mut share, "%");
    append_str(&mut s, share.as_str());
    append_str(&mut s, " | ");
    let ago = days_ago(report.now, a.last_active);
    append_str(&mut s, ago.as_str());
    append_str(&mut s, " |\n");
    s
}

fn more_line(n: usize) -> (s: String)
    ensures
        s@ == more_md(n as int),
{
    let mut s = String::new();
    if n > 15 {
        append_str(&mut s, "\n*… and ");
        proof {
            assert(s@ =~= "\n*… and "@);
        }
        push_decimal(&mut s, (n - 15) as u128);
        append_str(&mut s, " more*\n");
    }
    s
}

fn bus_line(report: &Report, cells: &ReportCells) -> (s: String)
    requires
        cells_fit(*report, *cells),
    ensures
        s@ == bus_md(*report, *cells),
{
    let mut s = String::new();
    if report.authors.len() == 0 {
        return s;
    }
    let top = &report.authors[0];
    match bus_factor_verdict(report.bus_factor_flags()) {
        BusFactor::Crisis => {
            append_str(&mut s, "> 🚨 **Bus factor crisis:** ");
            proof {
                assert(s@ =~= "> 🚨 **Bus factor crisis:** "@);
            }
            push_md(&mut s, top.name.as_str());
            append_str(&mut s, " owns ");
            append_str(&mut s, cells.shares[0].as_str());
            append_str(&mut s, "% of commits and has been inactive for 6+ months.\n");
        },
        BusFactor::SingleOwner => {
            append_str(&mut s, "> ⚠️ **Bus factor 1:** ");
            proof {
                assert(s@ =~= "> ⚠️ **Bus factor 1:** "@);
            }
            push_md(&mut s, top.name.as_str());
            append_str(&mut s, " owns ");
            append_str(&mut s, cells.shares[0].as_str());
            append_str(&mut s, "% of all commits.\n");
        },
        BusFactor::Departed => {
            append_str(&mut s, "> ⚠️ Top all-time contributor ");
            proof {
                assert(s@ =~= "> ⚠️ Top all-time contributor "@);
            }
            push_md(&mut s, top.name.as_str());
            append_str(&mut s, " has been inactive for 6+ months.\n");
        },
        BusFactor::Healthy => {},
    }
    s
}

fn contributors_line(report: &Report) -> (s: String)
    ensures
        s@ == contributors_md(*report),
{
    let mut s = String::new();
    append_str(&mut s, "> ");
    proof {
        assert(s@ =~= "> "@);
    }
    push_decimal(&mut s, report.authors.len() as u128);
    append_str(&mut s, " contributors total, ");
    push_decimal(&mut s, report.active_authors_last_year as u128);
    append_str(&mut s, " active in the last year.\n");
    s
}

fn silos_line(report: &Report) -> (s: String)
    ensures
        s@ == silos_md(*report),
{
    let silos = report.silos();
    if silos.len() == 0 {
        return String::new();
    }
    let ghost ps = ranked_silos(report.files@);
    let n: usize = if silos.len() < 5 { silos.len() } else { 5 };
    let mut items: Vec<String> = Vec::new();
    let mut k: usize = 0;
    while k < n
        invariant
            k <= n,
            n <= silos@.len(),
            silos@.len() == ps.len(),
            ps == ranked_silos(report.files@),
            silo_table(ps, report.files@),
            forall|j: int| 0 <= j < silos@.len() ==> *(#[trigger] silos@[j]) == report.files@[ps[j] as int],
            views(items@) == ps.take(k as int).map_values(|i: usize| silo_item(*report, i as int)),
        decreases n - k,
    {
        let f = silos[k];
        proof {
            assert(*silos@[k as int] == report.files@[ps[k as int] as int]);
            assert(ps.contains(ps[k as int]));
            assert(ps[k as int] < report.files@.len());
            assert(ps.contains((ps[k as int] as int) as usize));
            assert(silo(report.files@[ps[k as int] as int]));
        }
        let mut item = String::new();
        push_ticked(&mut item, f.path.as_str());
        proof {
            assert(item@ =~= ticked(f.path@));
        }
        append_str(&mut item, " (only ");
        push_md(&mut item, f.authors[0].as_str());
        append_str(&mut item, ")");
        let ghost before = items@;
        items.push(item);
        proof {
            assert(views(items@) =~= views(before).push(silo_item(*report, ps[k as int] as int)));
            assert(ps.take(k + 1).map_values(|i: usize| silo_item(*report, i as int)) =~= ps.take(
                k as int,
            ).map_values(|i: usize| silo_item(*report, i as int)).push(silo_item(*report, ps[k as int] as int)));
        }
        k = k + 1;
    }
    let all = join_strings(&items, ", ");
    let mut s = String::new();
    append_str(&mut s, "> ⚠️ **Knowledge silos** — single-author hot files: ");
    proof {
        assert(s@ =~= "> ⚠️ **Knowledge silos** — single-author hot files: "@);
    }
    append_str(&mut s, all.as_str());
    append_str(&mut s, ".\n");
    s
}

fn ownership(report: &Report, cells: &ReportCells) -> (s: String)
    requires
        cells_fit(*report, *cells),
    ensures
        s@ == ownership_md(*report, *cells),
{
    proof {
        reveal(ownership_md);
    }
    let mut s = String::new();
    append_str(&mut s, "## 👥 Ownership & Bus Factor (full history, no merges)\n\n");
    proof {
        assert(s@ =~= "## 👥 Ownership & Bus Factor (full history, no merges)\n\n"@);
    }
    append_str(&mut s, "| Author | Commits | Share | Last active |\n");
    append_str(&mut s, "|--------|--------:|------:|-------------|\n");
    let n = if report.authors.len() < 15 { report.authors.len() } else { 15 };
    let mut rows = String::new();
    let mut k: usize = 0;
    while k < n
        invariant
            k <= n,
            n <= report.authors@.len(),
            cells_fit(*report, *cells),
            rows@ == author_rows(*report, *cells, k as int),
        decreases n - k,
    {
        let row = author_line(report, cells, k);
        append_str(&mut rows, row.as_str());
        k = k + 1;
    }
    append_str(&mut s, rows.as_str());
    let more = more_line(report.authors.len());
    append_str(&mut s, more.as_str());
    append_str(&mut s, "\n");
    let bus = bus_line(report, cells);
    append_str(&mut s, bus.as_str());
    let contributors = contributors_line(report);
    append_str(&mut s, contributors.as_str());
    let silos = silos_line(report);
    append_str(&mut s, silos.as_str());
    append_str(&mut s, ">\n> *Caveat: squash-merge workflows compress authorship to whoever merged.*\n\n");
    s
}

// ---- velocity ----
pub open spec fn month_row(r: Report, k: int) -> Seq<char> {
    let m = r.velocity.months@[k];
    "| "@ + m.0@ + " | "@ + decimal(m.1 as nat) + " |\n"@
}

pub open spec fn month_rows(r: Report, from: int, k: int) -> Seq<char>
    decreases k - from,
{
    if k <= from {
        Seq::empty()
    } else {
        month_rows(r, from, k - 1) + month_row(r, k - 1)
    }
}

pub open spec fn omitted_md(start: int) -> Seq<char> {
    if start > 0 {
        "\n*… "@ + decimal(start as nat) + " earlier months omitted*\n"@
    } else {
        Seq::empty()
    }
}

#[verifier::opaque]
pub open spec fn velocity_md(r: Report) -> Seq<char> {
    let n = r.velocity.months@.len() as int;
    if n == 0 {
        "## 📊 Commit Velocity (entire history)\n\n"@ + "No commits found.\n\n"@
    } else {
        "## 📊 Commit Velocity (entire history)\n\n"@ + month_header_md() + "|-------|--------:|\n"@
            + month_rows(r, first_month(n), n) + omitted_md(first_month(n)) + "\n> Trend: "@
            + trend_text(r.velocity.trend) + ".\n\n"@
    }
}

fn month_line(report: &Report, k: usize) -> (s: String)
    requires
        k < report.velocity.months@.len(),
    ensures
        s@ == month_row(*report, k as int),
{
    let m = &report.velocity.months[k];
    let mut s = String::new();
    append_str(&mut s, "| ");
    proof {
        assert(s@ =~= "| "@);
    }
    append_str(&mut s, m.0.as_str());
    append_str(&mut s, " | ");
    push_decimal(&mut s, m.1 as u128);
    append_str(&mut s, " |\n");
    s
}

fn omitted_line(start: usize) -> (s: String)
    ensures
        s@ == omitted_md(start as int),
{
    let mut s = String::new();
    if start > 0 {
        append_str(&mut s, "\n*… ");
        proof {
            assert(s@ =~= "\n*… "@);
        }
        push_decimal(&mut s, start as u128);
        append_str(&mut s, " earlier months omitted*\n");
    }
    s
}

fn velocity(report: &Report) -> (s: String)
    ensures
        s@ == velocity_md(*report),
{
    proof {
        reveal(velocity_md);
    }
    let months = &report.velocity.months;
    let mut s = String::new();
    append_str(&mut s, "## 📊 Commit Velocity (entire history)\n\n");
    proof {
        assert(s@ =~= "## 📊 Commit Velocity (entire history)\n\n"@);
    }
    if months.len() == 0 {
        append_str(&mut s, "No commits found.\n\n");
        return s;
    }
    append_str(&mut s, "| Month | Commits |\n");
    append_str(&mut s, "|-------|--------:|\n");
    let start = first_shown_month(months.len());
    let mut rows = String::new();
    let mut k: usize = start;
    while k < months.len()
        invariant
            start <= k <= months@.len(),
            months == &report.velocity.months,
            rows@ == month_rows(*report, start as int, k as int),
        decreases months@.len() - k,
    {
        let row = month_line(report, k);
        append_str(&mut rows, row.as_str());
        k = k + 1;
    }
    append_str(&mut s, rows.as_str());
    let omitted = omitted_line(start);
    append_str(&mut s, omitted.as_str());
    append_str(&mut s, "\n> Trend: ");
    append_str(&mut s, report.velocity.trend.describe());
    append_str(&mut s, ".\n\n");
    s
}

// ---- firefighting ----
pub open spec fn recent_item(summary: Seq<char>) -> Seq<char> {
    "- "@ + md(summary) + "\n"@
}

pub open spec fn recent_items(r: Report, k: int) -> Seq<char>
    decreases k,
{
    if k <= 0 {
        Seq::empty()
    } else {
        recent_items(r, k - 1) + recent_item(r.firefight.recent@[k - 1]@)
    }
}

pub open spec fn recent_md(r: Report) -> Seq<char> {
    if r.firefight.recent@.len() == 0 {
        Seq::empty()
    } else {
        recent_items(r, r.firefight.recent@.len() as int) + "\n"@
    }
}

#[verifier::opaque]
pub open spec fn firefight_md(r: Report, c: ReportCells) -> Seq<char> {
    let count = r.firefight.count_last_year;
    "## 🚒 Firefighting (reverts/hotfixes, last 365 days)\n\n"@ + decimal(count as nat)
        + " revert/hotfix/rollback commits ("@ + c.per_month@ + "/month).\n\n"@ + recent_md(r) + "> "@
        + firefight_verdict_of(count) + ".\n"@
}

fn recent_list(report: &Report) -> (s: String)
    ensures
        s@ == recent_md(*report),
{
    let recent = &report.firefight.recent;
    let mut s = String::new();
    if recent.len() == 0 {
        return s;
    }
    let mut k: usize = 0;
    while k < recent.len()
        invariant
            k <= recent@.len(),
            recent == &report.firefight.recent,
            s@ == recent_items(*report, k as int),
        decreases recent@.len() - k,
    {
        let mut item = String::new();
        append_str(&mut item, "- ");
        proof {
            assert(item@ =~= "- "@);
        }
        push_md(&mut item, recent[k].as_str());
        append_str(&mut item, "\n");
        append_str(&mut s, item.as_str());
        k = k + 1;
    }
    append_str(&mut s, "\n");
    s
}

fn firefight(report: &Report, cells: &ReportCells) -> (s: String)
    ensures
        s@ == firefight_md(*report, *cells),
{
    proof {
        reveal(firefight_md);
    }
    let count = report.firefight.count_last_year;
    let mut s = String::new();
    append_str(&mut s, "## 🚒 Firefighting (reverts/hotfixes, last 365 days)\n\n");
    proof {
        assert(s@ =~= "## 🚒 Firefighting (reverts/hotfixes, last 365 days)\n\n"@);
    }
    push_decimal(&mut s, count as u128);
    append_str(&mut s, " revert/hotfix/rollback commits (");
    append_str(&mut s, cells.per_month.as_str());
    append_str(&mut s, "/month).\n\n");
    let recent = recent_list(report);
    append_str(&mut s, recent.as_str());
    append_str(&mut s, "> ");
    append_str(&mut s, report.firefight_verdict());
    append_str(&mut s, ".\n");
    s
}

// ---- the report ----
/// The whole report: the header and the six sections.
pub open spec fn markdown_document(r: Report, ctx: Context, c: ReportCells) -> Seq<char> {
    header_md(r, ctx) + hotspots_md(r, c, ctx.top) + churn_md(r, ctx.top) + bugs_md(r, ctx.top) + ownership_md(r, c)
        + velocity_md(r) + firefight_md(r, c)
}

/// The Markdown report of `report`, with the cells formatted by the caller.
pub fn markdown_report(report: &Report, ctx: &Context, cells: &ReportCells) -> (out: String)
    requires
        cells_fit(*report, *cells),
    ensures
        out@ == markdown_document(*report, *ctx, *cells),
{
    let mut h = header(report, ctx);
    let part = hotspots(report, cells, ctx.top);
    append_str(&mut h, part.as_str());
    let part = churn(report, ctx.top);
    append_str(&mut h, part.as_str());
    let part = bug_clusters(report, cells, ctx.top);
    append_str(&mut h, part.as_str());
    let part = ownership(report, cells);
    append_str(&mut h, part.as_str());
    let part = velocity(report);
    append_str(&mut h, part.as_str());
    let part = firefight(report, cells);
    append_str(&mut h, part.as_str());
    h
}

// ---- laws ----
/// Law: the report opens with its title.
pub proof fn law_markdown_title(r: Report, ctx: Context, c: ReportCells)
    ensures
        has_prefix(markdown_document(r, ctx, c), "# Repository Health Report\n"@),
{
    reveal(header_top_md);
    reveal_strlit("# Repository Health Report\n\n");
    reveal_strlit("# Repository Health Report\n");
    let doc = markdown_document(r, ctx, c);
    let first = "# Repository Health Report\n\n"@;
    assert(first.len() <= doc.len());
    assert(doc.subrange(0, 27) =~= "# Repository Health Report\n"@);
}

/// Law: the scope shows as one line of the fact list and nowhere else: the
/// reports of two contexts that differ only in their scope differ only in
/// that line, which is empty without a scope.
pub proof fn law_markdown_scope_line(r: Report, ctx1: Context, ctx2: Context, c: ReportCells)
    requires
        ctx1.repo_root == ctx2.repo_root,
        ctx1.branch == ctx2.branch,
        ctx1.window_desc == ctx2.window_desc,
        ctx1.top == ctx2.top,
    ensures
        exists|pre: Seq<char>, post: Seq<char>|
            markdown_document(r, ctx1, c) == pre + scope_line_md(ctx1.scope) + post && markdown_document(
                r,
                ctx2,
                c,
            ) == pre + scope_line_md(ctx2.scope) + post,
        scope_line_md(None) == Seq::<char>::empty(),
{
    let pre = header_top_md(ctx1.repo_root@, ctx1.branch@, ctx1.window_desc@);
    let post = header_bottom_md(r) + hotspots_md(r, c, ctx1.top) + churn_md(r, ctx1.top) + bugs_md(r, ctx1.top)
        + ownership_md(r, c) + velocity_md(r) + firefight_md(r, c);
    assert(markdown_document(r, ctx1, c) =~= pre + scope_line_md(ctx1.scope) + post);
    assert(markdown_document(r, ctx2, c) =~= pre + scope_line_md(ctx2.scope) + post);
}

/// Law: every value the report takes from the repository (paths, author
/// names, commit summaries) is shown through `md`, which holds no control
/// character and no backtick, and escapes every `|` and `<` with a
/// backslash: no value can leave its table cell or code span, or open a tag.
pub proof fn law_markdown_values_inert(v: Seq<char>)
    ensures
        free_of_controls(md(v)),
        absent(md(v), '`'),
        always_escaped(md(v), '|'),
        always_escaped(md(v), '<'),
{
    law_markdown_is_inert(v);
}

/// Law: the hotspot table's columns line up: its header names the columns
/// Risk, File, Score, Changes, Lines, Bug fixes and Authors, and the row of
/// a file holds, in that order, its risk label, its path, its score cell, its
/// churn, its line count, its bug fixes and its number of authors.
pub proof fn law_markdown_hotspot_columns(r: Report, c: ReportCells, i: int)
    ensures
        hotspot_header_md() == md_row(seq!["Risk"@, "File"@, "Score"@, "Changes"@, "Lines"@, "Bug fixes"@, "Authors"@]),
        hotspot_row(r, c, i) == md_row(
            seq![
                risk_label(risk_of(c.high_scores@[i], r.files@[i].bug_fixes)),
                ticked(r.files@[i].path@),
                c.scores@[i]@,
                decimal(r.files@[i].churn as nat),
                decimal(lines_of(r.files@[i])),
                decimal(r.files@[i].bug_fixes as nat),
                decimal(r.files@[i].authors@.len()),
            ],
        ),
{
    lemma_md_row7(
        "Risk"@, "File"@, "Score"@, "Changes"@, "Lines"@, "Bug fixes"@, "Authors"@,
    );
    reveal_strlit("| Risk | File | Score | Changes | Lines | Bug fixes | Authors |\n");
    reveal_strlit("Risk");
    reveal_strlit("File");
    reveal_strlit("Score");
    reveal_strlit("Changes");
    reveal_strlit("Lines");
    reveal_strlit("Bug fixes");
    reveal_strlit("Authors");
    reveal_strlit("| ");
    reveal_strlit(" | ");
    reveal_strlit(" |\n");
    assert(hotspot_header_md() =~= "| "@ + "Risk"@ + " | "@ + "File"@ + " | "@ + "Score"@ + " | "@ + "Changes"@ + " | "@
        + "Lines"@ + " | "@ + "Bug fixes"@ + " | "@ + "Authors"@ + " |\n"@);
    let f = r.files@[i];
    lemma_md_row7(
        risk_label(risk_of(c.high_scores@[i], f.bug_fixes)),
        ticked(f.path@),
        c.scores@[i]@,
        decimal(f.churn as nat),
        decimal(lines_of(f)),
        decimal(f.bug_fixes as nat),
        decimal(f.authors@.len()),
    );
}

proof fn lemma_md_row7(a: Seq<char>, b: Seq<char>, c: Seq<char>, d: Seq<char>, e: Seq<char>, f: Seq<char>, g: Seq<char>)
    ensures
        md_row(seq![a, b, c, d, e, f, g]) == "| "@ + a + " | "@ + b + " | "@ + c + " | "@ + d + " | "@ + e + " | "@ + f
            + " | "@ + g + " |\n"@,
{
    assert(md_cells(seq![a]) == "| "@ + a);
    lemma_md_cells_push(seq![a], b);
    assert(seq![a].push(b) =~= seq![a, b]);
    lemma_md_cells_push(seq![a, b], c);
    assert(seq![a, b].push(c) =~= seq![a, b, c]);
    lemma_md_cells_push(seq![a, b, c], d);
    assert(seq![a, b, c].push(d) =~= seq![a, b, c, d]);
    lemma_md_cells_push(seq![a, b, c, d], e);
    assert(seq![a, b, c, d].push(e) =~= seq![a, b, c, d, e]);
    lemma_md_cells_push(seq![a, b, c, d, e], f);
    assert(seq![a, b, c, d, e].push(f) =~= seq![a, b, c, d, e, f]);
    lemma_md_cells_push(seq![a, b, c, d, e, f], g);
    assert(seq![a, b, c, d, e, f].push(g) =~= seq![a, b, c, d, e, f, g]);
}

proof fn lemma_md_row4(a: Seq<char>, b: Seq<char>, c: Seq<char>, d: Seq<char>)
    ensures
        md_row(seq![a, b, c, d]) == "| "@ + a + " | "@ + b + " | "@ + c + " | "@ + d + " |\n"@,
        md_row(seq![a, b, c]) == "| "@ + a + " | "@ + b + " | "@ + c + " |\n"@,
        md_row(seq![a, b]) == "| "@ + a + " | "@ + b + " |\n"@,
{
    assert(md_cells(seq![a]) == "| "@ + a);
    lemma_md_cells_push(seq![a], b);
    assert(seq![a].push(b) =~= seq![a, b]);
    lemma_md_cells_push(seq![a, b], c);
    assert(seq![a, b].push(c) =~= seq![a, b, c]);
    lemma_md_cells_push(seq![a, b, c], d);
    assert(seq![a, b, c].push(d) =~= seq![a, b, c, d]);
}

/// Law: the churn table's columns line up: File, Changes, Authors and Last
/// touched over each file's path, churn, number of authors and age.
pub proof fn law_markdown_churn_columns(r: Report, i: int)
    ensures
        churn_header_md() == md_row(seq!["File"@, "Changes"@, "Authors"@, "Last touched"@]),
        churn_row(r, i) == md_row(
            seq![
                ticked(r.files@[i].path@),
                decimal(r.files@[i].churn as nat),
                decimal(r.files@[i].authors@.len()),
                days_ago_text(r.now, r.files@[i].last_touched),
            ],
        ),
{
    lemma_md_row4("File"@, "Changes"@, "Authors"@, "Last touched"@);
    reveal_strlit("| File | Changes | Authors | Last touched |\n");
    reveal_strlit("File");
    reveal_strlit("Changes");
    reveal_strlit("Authors");
    reveal_strlit("Last touched");
    reveal_strlit("| ");
    reveal_strlit(" | ");
    reveal_strlit(" |\n");
    assert(churn_header_md() =~= "| "@ + "File"@ + " | "@ + "Changes"@ + " | "@ + "Authors"@ + " | "@
        + "Last touched"@ + " |\n"@);
    let f = r.files@[i];
    lemma_md_row4(ticked(f.path@), decimal(f.churn as nat), decimal(f.authors@.len()), days_ago_text(r.now, f.last_touched));
}

/// Law: the bug-cluster table's columns line up: File, Bug fixes and Total
/// changes over each file's path, bug fixes and churn.
pub proof fn law_markdown_bug_columns(r: Report, i: int)
    ensures
        bug_header_md() == md_row(seq!["File"@, "Bug fixes"@, "Total changes"@]),
        bug_row(r, i) == md_row(
            seq![ticked(r.files@[i].path@), decimal(r.files@[i].bug_fixes as nat), decimal(r.files@[i].churn as nat)],
        ),
{
    lemma_md_row4("File"@, "Bug fixes"@, "Total changes"@, "File"@);
    reveal_strlit("| File | Bug fixes | Total changes |\n");
    reveal_strlit("File");
    reveal_strlit("Bug fixes");
    reveal_strlit("Total changes");
    reveal_strlit("| ");
    reveal_strlit(" | ");
    reveal_strlit(" |\n");
    assert(bug_header_md() =~= "| "@ + "File"@ + " | "@ + "Bug fixes"@ + " | "@ + "Total changes"@ + " |\n"@);
    let f = r.files@[i];
    lemma_md_row4(ticked(f.path@), decimal(f.bug_fixes as nat), decimal(f.churn as nat), ticked(f.path@));
}

/// Law: the ownership table's columns line up: Author, Commits, Share and
/// Last active over each author's name, commit count, share in percent and
/// age of the last commit.
pub proof fn law_markdown_author_columns(r: Report, c: ReportCells, k: int)
    ensures
        author_header_md() == md_row(seq!["Author"@, "Commits"@, "Share"@, "Last active"@]),
        author_row(r, c, k) == md_row(
            seq![
                md(r.authors@[k].name@),
                decimal(r.authors@[k].commits as nat),
                c.shares@[k]@ + "%"@,
                days_ago_text(r.now, r.authors@[k].last_active),
            ],
        ),
{
    lemma_md_row4("Author"@, "Commits"@, "Share"@, "Last active"@);
    reveal_strlit("| Author | Commits | Share | Last active |\n");
    reveal_strlit("Author");
    reveal_strlit("Commits");
    reveal_strlit("Share");
    reveal_strlit("Last active");
    reveal_strlit("| ");
    reveal_strlit(" | ");
    reveal_strlit(" |\n");
    assert(author_header_md() =~= "| "@ + "Author"@ + " | "@ + "Commits"@ + " | "@ + "Share"@ + " | "@
        + "Last active"@ + " |\n"@);
    let a = r.authors@[k];
    lemma_md_row4(md(a.name@), decimal(a.commits as nat), c.shares@[k]@ + "%"@, days_ago_text(r.now, a.last_active));
}

/// Law: the velocity table's columns line up: Month and Commits over each
/// month's key and commit count.
pub proof fn law_markdown_month_columns(r: Report, k: int)
    ensures
        month_header_md() == md_row(seq!["Month"@, "Commits"@]),
        month_row(r, k) == md_row(seq![r.velocity.months@[k].0@, decimal(r.velocity.months@[k].1 as nat)]),
{
    lemma_md_row4("Month"@, "Commits"@, "Month"@, "Month"@);
    reveal_strlit("| Month | Commits |\n");
    reveal_strlit("Month");
    reveal_strlit("Commits");
    reveal_strlit("| ");
    reveal_strlit(" | ");
    reveal_strlit(" |\n");
    assert(month_header_md() =~= "| "@ + "Month"@ + " | "@ + "Commits"@ + " |\n"@);
    let m = r.velocity.months@[k];
    lemma_md_row4(m.0@, decimal(m.1 as nat), m.0@, m.0@);
}

} // verus!
