//! The HTML report: the sections of the terminal dashboard as one
//! self-contained page (embedded CSS, no external assets). Every value taken
//! from the repository or from the context passes through the HTML escaping
//! of `sanitize`; cells formatted by the caller go in as they are.
use vstd::prelude::*;
use crate::export::{
    cells_fit, date_text, first_month, lines_of, push_decimal, report_date, shown, ReportCells,
};
use crate::metrics::{
    days_ago, days_ago_text, firefight_verdict_of, ranked_silos, risk_of, silo, silo_table,
    trend_text, Report,
};
use crate::render::{
    badge, badge_markup, bus_factor_of, bus_factor_verdict, contributors_severity,
    firefight_severity, firefight_severity_of, first_shown_month, trend_severity,
    trend_severity_of, verdict, verdict_class, verdict_class_of, BusFactor, Context,
};
use crate::sanitize::{absent, free_of_controls, html, html_escaped, law_html_is_inert, stripped};
use crate::text::{append_str, decimal, has_prefix, has_suffix, join_strings, joined, views};

verus! {

/// The embedded style sheet.
pub const STYLE: &'static str = "
:root { color-scheme: dark; }
* { box-sizing: border-box; }
body {
  margin: 0; padding: 2rem 1rem; background: #0d1117; color: #e6edf3;
  font: 15px/1.5 -apple-system, \"Segoe UI\", Roboto, Helvetica, Arial, sans-serif;
}
main { max-width: 880px; margin: 0 auto; }
h1 { font-size: 1.6rem; border-bottom: 1px solid #30363d; padding-bottom: .5rem; }
h2 { font-size: 1.15rem; margin-top: 2.2rem; }
ul.meta { list-style: none; padding: 0; color: #8b949e; }
ul.meta li { margin: .15rem 0; }
table { border-collapse: collapse; width: 100%; margin: .6rem 0; }
th, td { text-align: left; padding: .35rem .6rem; border-bottom: 1px solid #21262d; }
th { color: #8b949e; font-weight: 600; font-size: .85rem; text-transform: uppercase; }
td.num, th.num { text-align: right; font-variant-numeric: tabular-nums; }
code { font-family: SFMono-Regular, Menlo, Consolas, monospace; font-size: .9em;
       background: #161b22; padding: .1rem .35rem; border-radius: 5px; }
.badge { font: 700 .75rem/1.6 SFMono-Regular, Menlo, Consolas, monospace;
         padding: .1rem .5rem; border-radius: 6px; border: 1px solid; }
.critical { color: #f85149; border-color: #f85149; background: #3d1418; }
.high     { color: #e3b341; border-color: #d29922; background: #3a2d10; }
.watch    { color: #3fb950; border-color: #2ea043; background: #12261e; }
.verdict { border-left: 3px solid #30363d; padding: .4rem .8rem; margin: .5rem 0;
           background: #161b22; border-radius: 0 6px 6px 0; }
.verdict.crit { border-color: #f85149; }
.verdict.warn { border-color: #d29922; }
.verdict.ok   { border-color: #2ea043; }
.note { color: #8b949e; font-size: .85rem; }
.bar { display: block; height: 10px; border-radius: 5px; min-width: 2px;
       background: linear-gradient(90deg, #39d2ff, #2188ff); }
td.barcell { width: 50%; }
footer { margin-top: 3rem; color: #484f58; font-size: .8rem; }
";

/// A value from the repository or the context, as the page shows it.
pub open spec fn esc(s: Seq<char>) -> Seq<char> {
    html_escaped(stripped(s))
}

/// A value in a `<code>` element.
pub open spec fn code(s: Seq<char>) -> Seq<char> {
    "<code>"@ + esc(s) + "</code>"@
}

/// A right-aligned number cell.
pub open spec fn td_num(n: nat) -> Seq<char> {
    cell_html(1, decimal(n))
}

/// A table cell: kind 0 plain, 1 right-aligned number, 2 bar.
pub open spec fn cell_html(kind: u8, content: Seq<char>) -> Seq<char> {
    if kind == 1 {
        "<td class=\"num\">"@ + content + "</td>"@
    } else if kind == 2 {
        "<td class=\"barcell\">"@ + content + "</td>"@
    } else {
        "<td>"@ + content + "</td>"@
    }
}

/// A header cell: kind 0 plain, 1 right-aligned number.
pub open spec fn head_cell_html(kind: u8, name: Seq<char>) -> Seq<char> {
    if kind == 1 {
        "<th class=\"num\">"@ + name + "</th>"@
    } else {
        "<th>"@ + name + "</th>"@
    }
}

/// A table row: its cells, in order.
pub open spec fn tr_open(cells: Seq<(u8, Seq<char>)>) -> Seq<char>
    decreases cells.len(),
{
    if cells.len() == 0 {
        "<tr>"@
    } else {
        tr_open(cells.drop_last()) + cell_html(cells.last().0, cells.last().1)
    }
}

pub open spec fn html_row(cells: Seq<(u8, Seq<char>)>) -> Seq<char> {
    tr_open(cells) + "</tr>\n"@
}

/// A table head: its header cells, in order.
pub open spec fn head_open(names: Seq<(u8, Seq<char>)>) -> Seq<char>
    decreases names.len(),
{
    if names.len() == 0 {
        "<table><thead><tr>"@
    } else {
        head_open(names.drop_last()) + head_cell_html(names.last().0, names.last().1)
    }
}

pub open spec fn html_head(names: Seq<(u8, Seq<char>)>) -> Seq<char> {
    head_open(names) + "</tr></thead><tbody>\n"@
}

/// A verdict paragraph.
pub open spec fn verdict_p(class: Seq<char>, text: Seq<char>) -> Seq<char> {
    "<p class=\"verdict "@ + class + "\">"@ + text + "</p>\n"@
}

fn push_esc(h: &mut String, s: &str)
    ensures
        final(h)@ == old(h)@ + esc(s@),
{
    let e = html(s);
    append_str(h, e.as_str());
}

fn push_code(h: &mut String, s: &str)
    ensures
        final(h)@ == old(h)@ + code(s@),
{
    append_str(h, "<code>");
    push_esc(h, s);
    append_str(h, "</code>");
    proof {
        assert(h@ =~= old(h)@ + code(s@));
    }
}

fn push_cell(h: &mut String, kind: u8, x: &str)
    ensures
        final(h)@ == old(h)@ + cell_html(kind, x@),
{
    if kind == 1 {
        append_str(h, "<td class=\"num\">");
    } else if kind == 2 {
        append_str(h, "<td class=\"barcell\">");
    } else {
        append_str(h, "<td>");
    }
    append_str(h, x);
    append_str(h, "</td>");
    proof {
        assert(h@ =~= old(h)@ + cell_html(kind, x@));
    }
}

fn code_string(x: &str) -> (c: String)
    ensures
        c@ == code(x@),
{
    let mut c = String::new();
    push_code(&mut c, x);
    proof {
        assert(c@ =~= code(x@));
    }
    c
}

fn push_td_num(h: &mut String, n: u128)
    ensures
        final(h)@ == old(h)@ + td_num(n as nat),
{
    append_str(h, "<td class=\"num\">");
    push_decimal(h, n);
    append_str(h, "</td>");
    proof {
        assert(h@ =~= old(h)@ + td_num(n as nat));
    }
}

// ---- header ----
/// The page head and the first facts: repository and window.
#[verifier::opaque]
pub open spec fn header_top(root: Seq<char>, branch: Seq<char>, window: Seq<char>) -> Seq<char> {
    "<!DOCTYPE html>\n<html lang=\"en\">\n<head>\n<meta charset=\"utf-8\">\n<meta name=\"viewport\" content=\"width=device-width, initial-scale=1\">\n<title>Repository Health Report — "@
        + esc(root) + "</title>\n<style>"@ + STYLE@ + "</style>\n</head>\n<body>\n<main>\n"@
        + "<h1>Repository Health Report</h1>\n"@ + "<ul class=\"meta\">\n"@
        + "<li><strong>Repository:</strong> "@ + code(root) + " @ "@ + code(branch) + "</li>\n"@
        + "<li><strong>Window:</strong> "@ + esc(window) + "</li>\n"@
}

/// The last facts: history size and generation date.
#[verifier::opaque]
pub open spec fn header_bottom(r: Report) -> Seq<char> {
    "<li><strong>History:</strong> "@ + decimal(r.total_commits as nat) + " commits</li>\n"@
        + "<li><strong>Generated:</strong> "@ + date_text(r.now) + " by local-git-ops</li>\n"@ + "</ul>\n"@
}

/// The page head and the list of report facts.
pub open spec fn header_html(r: Report, ctx: Context) -> Seq<char> {
    header_top(ctx.repo_root@, ctx.branch@, ctx.window_desc@) + scope_item(ctx.scope) + excluded_item(ctx.excluded_authors) + header_bottom(r)
}

/// The scope item of the fact list, present exactly when there is a scope.
pub open spec fn scope_item(scope: Option<&str>) -> Seq<char> {
    match scope {
        Some(s) => "<li><strong>Scope:</strong> <code>"@ + esc(s@) + "/</code></li>\n"@,
        None => Seq::empty(),
    }
}

/// The excluded-authors item of the fact list, present exactly when authors
/// are excluded.
pub open spec fn excluded_item(excluded: Option<&str>) -> Seq<char> {
    match excluded {
        Some(s) => "<li><strong>Excluded authors:</strong> "@ + esc(s@) + "</li>\n"@,
        None => Seq::empty(),
    }
}

fn scope_line(scope: Option<&str>) -> (s: String)
    ensures
        s@ == scope_item(scope),
{
    let mut s = String::new();
    match scope {
        Some(v) => {
            append_str(&mut s, "<li><strong>Scope:</strong> <code>");
            push_esc(&mut s, v);
            append_str(&mut s, "/</code></li>\n");
        },
        None => {},
    }
    proof {
        assert(s@ =~= scope_item(scope));
    }
    s
}

fn excluded_line(excluded: Option<&str>) -> (s: String)
    ensures
        s@ == excluded_item(excluded),
{
    let mut s = String::new();
    match excluded {
        Some(v) => {
            append_str(&mut s, "<li><strong>Excluded authors:</strong> ");
            push_esc(&mut s, v);
            append_str(&mut s, "</li>\n");
        },
        None => {},
    }
    proof {
        assert(s@ =~= excluded_item(excluded));
    }
    s
}

fn header_top_line(ctx: &Context) -> (h: String)
    ensures
        h@ == header_top(ctx.repo_root@, ctx.branch@, ctx.window_desc@),
{
    proof {
        reveal(header_top);
    }
    let mut h = String::new();
    append_str(&mut h, "<!DOCTYPE html>\n<html lang=\"en\">\n<head>\n<meta charset=\"utf-8\">\n<meta name=\"viewport\" content=\"width=device-width, initial-scale=1\">\n<title>Repository Health Report — ");
    proof {
        assert(h@ =~= "<!DOCTYPE html>\n<html lang=\"en\">\n<head>\n<meta charset=\"utf-8\">\n<meta name=\"viewport\" content=\"width=device-width, initial-scale=1\">\n<title>Repository Health Report — "@);
    }
    push_esc(&mut h, ctx.repo_root);
    append_str(&mut h, "</title>\n<style>");
    append_str(&mut h, STYLE);
    append_str(&mut h, "</style>\n</head>\n<body>\n<main>\n");
    append_str(&mut h, "<h1>Repository Health Report</h1>\n");
    append_str(&mut h, "<ul class=\"meta\">\n");
    append_str(&mut h, "<li><strong>Repository:</strong> ");
    push_code(&mut h, ctx.repo_root);
    append_str(&mut h, " @ ");
    push_code(&mut h, ctx.branch);
    append_str(&mut h, "</li>\n");
    append_str(&mut h, "<li><strong>Window:</strong> ");
    push_esc(&mut h, ctx.window_desc);
    append_str(&mut h, "</li>\n");
    h
}

fn header_bottom_line(report: &Report) -> (h: String)
    ensures
        h@ == header_bottom(*report),
{
    proof {
        reveal(header_bottom);
    }
    let date = report_date(report.now);
    let mut h = String::new();
    append_str(&mut h, "<li><strong>History:</strong> ");
    proof {
        assert(h@ =~= "<li><strong>History:</strong> "@);
    }
    push_decimal(&mut h, report.total_commits as u128);
    append_str(&mut h, " commits</li>\n");
    append_str(&mut h, "<li><strong>Generated:</strong> ");
    append_str(&mut h, date.as_str());
    append_str(&mut h, " by local-git-ops</li>\n");
    append_str(&mut h, "</ul>\n");
    h
}

fn header(report: &Report, ctx: &Context) -> (h: String)
    ensures
        h@ == header_html(*report, *ctx),
{
    let mut h = header_top_line(ctx);
    let scope = scope_line(ctx.scope);
    append_str(&mut h, scope.as_str());
    let excluded = excluded_line(ctx.excluded_authors);
    append_str(&mut h, excluded.as_str());
    let bottom = header_bottom_line(report);
    append_str(&mut h, bottom.as_str());
    h
}

fn verdict_string(class: &str, text: &str) -> (s: String)
    ensures
        s@ == verdict_p(class@, text@),
{
    let mut s = String::new();
    verdict(&mut s, class, text);
    proof {
        assert(s@ =~= verdict_p(class@, text@));
    }
    s
}

/// Each item in a `<code>` element.
fn code_list(items: &Vec<String>) -> (out: Vec<String>)
    ensures
        views(out@) == views(items@).map_values(|p: Seq<char>| code(p)),
{
    let mut out: Vec<String> = Vec::new();
    let mut k: usize = 0;
    while k < items.len()
        invariant
            k <= items@.len(),
            views(out@) == views(items@).take(k as int).map_values(|p: Seq<char>| code(p)),
        decreases items@.len() - k,
    {
        let mut c = String::new();
        push_code(&mut c, items[k].as_str());
        proof {
            assert(c@ =~= code(items@[k as int]@));
        }
        let ghost before = out@;
        out.push(c);
        proof {
            assert(views(out@) =~= views(before).push(code(items@[k as int]@)));
            assert(views(items@).take(k + 1).map_values(|p: Seq<char>| code(p)) =~= views(items@).take(
                k as int,
            ).map_values(|p: Seq<char>| code(p)).push(code(items@[k as int]@)));
        }
        k = k + 1;
    }
    proof {
        assert(views(items@).take(items@.len() as int) =~= views(items@));
    }
    out
}

// ---- table heads ----
pub open spec fn hotspot_head_html() -> Seq<char> {
    "<table><thead><tr><th>Risk</th><th>File</th><th class=\"num\">Score</th><th class=\"num\">Changes</th><th class=\"num\">Lines</th><th class=\"num\">Bug fixes</th><th class=\"num\">Authors</th></tr></thead><tbody>\n"@
}

pub open spec fn churn_head_html() -> Seq<char> {
    "<table><thead><tr><th>File</th><th class=\"num\">Changes</th><th class=\"num\">Authors</th><th>Last touched</th></tr></thead><tbody>\n"@
}

pub open spec fn bug_head_html() -> Seq<char> {
    "<table><thead><tr><th>File</th><th class=\"num\">Bug fixes</th><th class=\"num\">Total changes</th></tr></thead><tbody>\n"@
}

pub open spec fn author_head_html() -> Seq<char> {
    "<table><thead><tr><th>Author</th><th class=\"num\">Commits</th><th class=\"num\">Share</th><th>Last active</th></tr></thead><tbody>\n"@
}

pub open spec fn month_head_html() -> Seq<char> {
    "<table><thead><tr><th>Month</th><th class=\"num\">Commits</th><th></th></tr></thead><tbody>\n"@
}

// ---- hotspots ----
/// A hotspot row for the file at position `i`.
pub open spec fn hotspot_row(r: Report, c: ReportCells, i: int) -> Seq<char> {
    let f = r.files@[i];
    "<tr>"@ + cell_html(0, badge_markup(risk_of(c.high_scores@[i], f.bug_fixes))) + cell_html(0, code(f.path@))
        + cell_html(1, c.scores@[i]@) + td_num(f.churn as nat) + td_num(lines_of(f)) + td_num(f.bug_fixes as nat)
        + td_num(f.authors@.len()) + "</tr>\n"@
}

/// The rows of the first `k` hotspots in score order.
pub open spec fn hotspot_rows(r: Report, c: ReportCells, k: int) -> Seq<char>
    decreases k,
{
    if k <= 0 {
        Seq::empty()
    } else {
        hotspot_rows(r, c, k - 1) + hotspot_row(r, c, r.hotspots@[k - 1] as int)
    }
}

/// The files both most churned and most bug-fixed, as a critical verdict.
pub open spec fn overlap_html(r: Report) -> Seq<char> {
    if r.overlap_paths().len() == 0 {
        Seq::empty()
    } else {
        verdict_p(
            "crit"@,
            "High-churn <em>and</em> high-bug — your single biggest risk: "@ + joined(
                r.overlap_paths().map_values(|p: Seq<char>| code(p)),
                ", "@,
            ),
        )
    }
}

#[verifier::opaque]
pub open spec fn hotspots_html(r: Report, c: ReportCells, top: usize) -> Seq<char> {
    if r.hotspots@.len() == 0 {
        "<h2>🔥 Maintenance Hotspots (churn × size)</h2>\n"@
            + "<p class=\"note\">No hotspots in the analysis window.</p>\n"@
    } else {
        "<h2>🔥 Maintenance Hotspots (churn × size)</h2>\n"@
            + hotspot_head_html()
            + hotspot_rows(r, c, shown(r.hotspots@.len() as int, top as int)) + "</tbody></table>\n"@
            + overlap_html(r)
    }
}

fn hotspot_line(report: &Report, cells: &ReportCells, i: usize) -> (s: String)
    requires
        cells_fit(*report, *cells),
        i < report.files@.len(),
    ensures
        s@ == hotspot_row(*report, *cells, i as int),
{
    let f = &report.files[i];
    let mut s = String::new();
    append_str(&mut s, "<tr>");
    proof {
        assert(s@ =~= "<tr>"@);
    }
    let b = badge(f.risk(cells.high_scores[i]));
    push_cell(&mut s, 0, b.as_str());
    let c = code_string(f.path.as_str());
    push_cell(&mut s, 0, c.as_str());
    push_cell(&mut s, 1, cells.scores[i].as_str());
    push_td_num(&mut s, f.churn as u128);
    let lines: usize = match f.loc {
        Some(l) => l,
        None => 0,
    };
    push_td_num(&mut s, lines as u128);
    push_td_num(&mut s, f.bug_fixes as u128);
    push_td_num(&mut s, f.authors.len() as u128);
    append_str(&mut s, "</tr>\n");
    s
}

fn overlap_verdict(report: &Report) -> (s: String)
    requires
        forall|k: int| 0 <= k < report.bug_clusters@.len() ==> (#[trigger] report.bug_clusters@[k]) < report.files@.len(),
    ensures
        s@ == overlap_html(*report),
{
    let overlap = report.churn_bug_overlap();
    if overlap.len() > 0 {
        let listed = code_list(&overlap);
        let all = join_strings(&listed, ", ");
        let mut text = String::new();
        append_str(&mut text, "High-churn <em>and</em> high-bug — your single biggest risk: ");
        proof {
            assert(text@ =~= "High-churn <em>and</em> high-bug — your single biggest risk: "@);
        }
        append_str(&mut text, all.as_str());
        verdict_string("crit", text.as_str())
    } else {
        proof {
            assert(views(overlap@).len() == 0);
        }
        String::new()
    }
}

fn hotspots(report: &Report, cells: &ReportCells, top: usize) -> (s: String)
    requires
        cells_fit(*report, *cells),
    ensures
        s@ == hotspots_html(*report, *cells, top),
{
    proof {
        reveal(hotspots_html);
    }
    let mut s = String::new();
    append_str(&mut s, "<h2>🔥 Maintenance Hotspots (churn × size)</h2>\n");
    proof {
        assert(s@ =~= "<h2>🔥 Maintenance Hotspots (churn × size)</h2>\n"@);
    }
    if report.hotspots.len() == 0 {
        append_str(&mut s, "<p class=\"note\">No hotspots in the analysis window.</p>\n");
        return s;
    }
    append_str(&mut s, "<table><thead><tr><th>Risk</th><th>File</th><th class=\"num\">Score</th><th class=\"num\">Changes</th><th class=\"num\">Lines</th><th class=\"num\">Bug fixes</th><th class=\"num\">Authors</th></tr></thead><tbody>\n");
    let n = if report.hotspots.len() < top { report.hotspots.len() } else { top };
    let mut rows = String::new();
    let mut k: usize = 0;
    while k < n
        invariant
            k <= n,
            n <= report.hotspots@.len(),
            cells_fit(*report, *cells),
            rows@ == hotspot_rows(*report, *cells, k as int),
        decreases n - k,
    {
        let row = hotspot_line(report, cells, report.hotspots[k]);
        append_str(&mut rows, row.as_str());
        k = k + 1;
    }
    append_str(&mut s, rows.as_str());
    append_str(&mut s, "</tbody></table>\n");
    let overlap = overlap_verdict(report);
    append_str(&mut s, overlap.as_str());
    s
}

// ---- churn ----
pub open spec fn churn_row(r: Report, i: int) -> Seq<char> {
    let f = r.files@[i];
    "<tr>"@ + cell_html(0, code(f.path@)) + td_num(f.churn as nat) + td_num(f.authors@.len())
        + cell_html(0, days_ago_text(r.now, f.last_touched)) + "</tr>\n"@
}

pub open spec fn churn_rows(r: Report, k: int) -> Seq<char>
    decreases k,
{
    if k <= 0 {
        Seq::empty()
    } else {
        churn_rows(r, k - 1) + churn_row(r, k - 1)
    }
}

#[verifier::opaque]
pub open spec fn churn_html(r: Report, top: usize) -> Seq<char> {
    if r.files@.len() == 0 {
        "<h2>📈 Code Churn (what changes the most)</h2>\n"@
            + "<p class=\"note\">No file changes in the analysis window.</p>\n"@
    } else {
        "<h2>📈 Code Churn (what changes the most)</h2>\n"@
            + churn_head_html()
            + churn_rows(r, shown(r.files@.len() as int, top as int)) + "</tbody></table>\n"@
            + "<p class=\"note\">Lockfiles, changelogs and generated code are excluded by default.</p>\n"@
    }
}

fn churn_line(report: &Report, i: usize) -> (s: String)
    requires
        i < report.files@.len(),
    ensures
        s@ == churn_row(*report, i as int),
{
    let f = &report.files[i];
    let mut s = String::new();
    append_str(&mut s, "<tr>");
    proof {
        assert(s@ =~= "<tr>"@);
    }
    let c = code_string(f.path.as_str());
    push_cell(&mut s, 0, c.as_str());
    push_td_num(&mut s, f.churn as u128);
    push_td_num(&mut s, f.authors.len() as u128);
    let ago = days_ago(report.now, f.last_touched);
    push_cell(&mut s, 0, ago.as_str());
    append_str(&mut s, "</tr>\n");
    s
}

fn churn(report: &Report, top: usize) -> (s: String)
    ensures
        s@ == churn_html(*report, top),
{
    proof {
        reveal(churn_html);
    }
    let mut s = String::new();
    append_str(&mut s, "<h2>📈 Code Churn (what changes the most)</h2>\n");
    proof {
        assert(s@ =~= "<h2>📈 Code Churn (what changes the most)</h2>\n"@);
    }
    if report.files.len() == 0 {
        append_str(&mut s, "<p class=\"note\">No file changes in the analysis window.</p>\n");
        return s;
    }
    append_str(&mut s, "<table><thead><tr><th>File</th><th class=\"num\">Changes</th><th class=\"num\">Authors</th><th>Last touched</th></tr></thead><tbody>\n");
    let n = if report.files.len() < top { report.files.len() } else { top };
    let mut rows = String::new();
    let mut k: usize = 0;
    while k < n
        invariant
            k <= n,
            n <= report.files@.len(),
            rows@ == churn_rows(*report, k as int),
        decreases n - k,
    {
        let row = churn_line(report, k);
        append_str(&mut rows, row.as_str());
        k = k + 1;
    }
    append_str(&mut s, rows.as_str());
    append_str(&mut s, "</tbody></table>\n");
    append_str(&mut s, "<p class=\"note\">Lockfiles, changelogs and generated code are excluded by default.</p>\n");
    s
}

// ---- bug clusters ----
pub open spec fn bug_row(r: Report, i: int) -> Seq<char> {
    let f = r.files@[i];
    "<tr>"@ + cell_html(0, code(f.path@)) + td_num(f.bug_fixes as nat) + td_num(f.churn as nat) + "</tr>\n"@
}

pub open spec fn bug_rows(r: Report, k: int) -> Seq<char>
    decreases k,
{
    if k <= 0 {
        Seq::empty()
    } else {
        bug_rows(r, k - 1) + bug_row(r, r.bug_clusters@[k - 1] as int)
    }
}

#[verifier::opaque]
pub open spec fn bugs_html(r: Report, top: usize) -> Seq<char> {
    if r.bug_clusters@.len() == 0 {
        "<h2>🐛 Bug Clusters (files touched by fix commits)</h2>\n"@
            + "<p class=\"note\">No bug-related commits matched — check commit message discipline.</p>\n"@
    } else {
        "<h2>🐛 Bug Clusters (files touched by fix commits)</h2>\n"@
            + bug_head_html()
            + bug_rows(r, shown(r.bug_clusters@.len() as int, top as int)) + "</tbody></table>\n"@
            + "<p class=\"note\">Depends on commit message discipline; a rough map beats no map.</p>\n"@
    }
}

fn bug_line(report: &Report, i: usize) -> (s: String)
    requires
        i < report.files@.len(),
    ensures
        s@ == bug_row(*report, i as int),
{
    let f = &report.files[i];
    let mut s = String::new();
    append_str(&mut s, "<tr>");
    proof {
        assert(s@ =~= "<tr>"@);
    }
    let c = code_string(f.path.as_str());
    push_cell(&mut s, 0, c.as_str());
    push_td_num(&mut s, f.bug_fixes as u128);
    push_td_num(&mut s, f.churn as u128);
    append_str(&mut s, "</tr>\n");
    s
}

fn bug_clusters(report: &Report, cells: &ReportCells, top: usize) -> (s: String)
    requires
        cells_fit(*report, *cells),
    ensures
        s@ == bugs_html(*report, top),
{
    proof {
        reveal(bugs_html);
    }
    let mut s = String::new();
    append_str(&mut s, "<h2>🐛 Bug Clusters (files touched by fix commits)</h2>\n");
    proof {
        assert(s@ =~= "<h2>🐛 Bug Clusters (files touched by fix commits)</h2>\n"@);
    }
    if report.bug_clusters.len() == 0 {
        append_str(&mut s, "<p class=\"note\">No bug-related commits matched — check commit message discipline.</p>\n");
        return s;
    }
    append_str(&mut s, "<table><thead><tr><th>File</th><th class=\"num\">Bug fixes</th><th class=\"num\">Total changes</th></tr></thead><tbody>\n");
    let n = if report.bug_clusters.len() < top { report.bug_clusters.len() } else { top };
    let mut rows = String::new();
    let mut k: usize = 0;
    while k < n
        invariant
            k <= n,
            n <= report.bug_clusters@.len(),
            cells_fit(*report, *cells),
            rows@ == bug_rows(*report, k as int),
        decreases n - k,
    {
        let row = bug_line(report, report.bug_clusters[k]);
        append_str(&mut rows, row.as_str());
        k = k + 1;
    }
    append_str(&mut s, rows.as_str());
    append_str(&mut s, "</tbody></table>\n");
    append_str(&mut s, "<p class=\"note\">Depends on commit message discipline; a rough map beats no map.</p>\n");
    s
}

// ---- ownership ----
pub open spec fn author_row(r: Report, c: ReportCells, k: int) -> Seq<char> {
    let a = r.authors@[k];
    "<tr>"@ + cell_html(0, esc(a.name@)) + td_num(a.commits as nat) + cell_html(1, c.shares@[k]@ + "%"@)
        + cell_html(0, days_ago_text(r.now, a.last_active)) + "</tr>\n"@
}

pub open spec fn author_rows(r: Report, c: ReportCells, k: int) -> Seq<char>
    decreases k,
{
    if k <= 0 {
        Seq::empty()
    } else {
        author_rows(r, c, k - 1) + author_row(r, c, k - 1)
    }
}

/// The note on contributors beyond the first 15.
pub open spec fn more_html(n: int) -> Seq<char> {
    if n > 15 {
        "<p class=\"note\">… and "@ + decimal((n - 15) as nat) + " more</p>\n"@
    } else {
        Seq::empty()
    }
}

/// The bus-factor verdict on the top contributor.
pub open spec fn bus_html(r: Report, c: ReportCells) -> Seq<char> {
    if r.authors@.len() == 0 {
        Seq::empty()
    } else {
        let name = esc(r.authors@[0].name@);
        let share = c.shares@[0]@;
        match bus_factor_of(r.flags()) {
            BusFactor::Crisis => verdict_p(
                "crit"@,
                "<strong>Bus factor crisis:</strong> "@ + name + " owns "@ + share
                    + "% of commits and has been inactive for 6+ months."@,
            ),
            BusFactor::SingleOwner => verdict_p(
                "warn"@,
                "<strong>Bus factor 1:</strong> "@ + name + " owns "@ + share + "% of all commits."@,
            ),
            BusFactor::Departed => verdict_p(
                "warn"@,
                "Top all-time contributor "@ + name + " has been inactive for 6+ months."@,
            ),
            BusFactor::Healthy => Seq::empty(),
        }
    }
}

/// The contributor summary, a warning when fewer than a third were active in
/// the last year.
pub open spec fn contributors_html(r: Report) -> Seq<char> {
    let n = r.authors@.len();
    let active = r.active_authors_last_year;
    verdict_p(
        verdict_class_of(
            if active * 3 < n {
                crate::metrics::Risk::High
            } else {
                crate::metrics::Risk::Watch
            },
        ),
        decimal(n) + " contributors total, "@ + decimal(active as nat) + " active in the last year."@,
    )
}

/// A knowledge silo as listed: its path and its one author.
pub open spec fn silo_item(r: Report, i: int) -> Seq<char> {
    code(r.files@[i].path@) + " (only "@ + esc(r.files@[i].authors@[0]@) + ")"@
}

/// The first five silos, as listed.
pub open spec fn silo_items(r: Report) -> Seq<Seq<char>> {
    let ps = ranked_silos(r.files@);
    ps.take(shown(ps.len() as int, 5)).map_values(|i: usize| silo_item(r, i as int))
}

pub open spec fn silos_html(r: Report) -> Seq<char> {
    if ranked_silos(r.files@).len() == 0 {
        Seq::empty()
    } else {
        verdict_p(
            "warn"@,
            "<strong>Knowledge silos</strong> — single-author hot files: "@ + joined(silo_items(r), ", "@) + "."@,
        )
    }
}

#[verifier::opaque]
pub open spec fn ownership_html(r: Report, c: ReportCells) -> Seq<char> {
    "<h2>👥 Ownership &amp; Bus Factor (full history, no merges)</h2>\n"@
        + author_head_html()
        + author_rows(r, c, shown(r.authors@.len() as int, 15)) + "</tbody></table>\n"@
        + more_html(r.authors@.len() as int) + bus_html(r, c) + contributors_html(r) + silos_html(r)
        + "<p class=\"note\">Caveat: squash-merge workflows compress authorship to whoever merged.</p>\n"@
}

fn author_line(report: &Report, cells: &ReportCells, k: usize) -> (s: String)
    requires
        cells_fit(*report, *cells),
        k < report.authors@.len(),
    ensures
        s@ == author_row(*report, *cells, k as int),
{
    let a = &report.authors[k];
    let mut s = String::new();
    append_str(&mut s, "<tr>");
    proof {
        assert(s@ =~= "<tr>"@);
    }
    let mut name = String::new();
    push_esc(&mut name, a.name.as_str());
    proof {
        assert(name@ =~= esc(a.name@));
    }
    push_cell(&mut s, 0, name.as_str());
    push_td_num(&mut s, a.commits as u128);
    let mut share = String::new();
    append_str(&mut share, cells.shares[k].as_str());
    proof {
        assert(share@ =~= cells.shares@[k as int]@);
    }
    append_str(&mut share, "%");
    push_cell(&mut s, 1, share.as_str());
    let ago = days_ago(report.now, a.last_active);
    push_cell(&mut s, 0, ago.as_str());
    append_str(&mut s, "</tr>\n");
    s
}

fn more_line(n: usize) -> (s: String)
    ensures
        s@ == more_html(n as int),
{
    let mut s = String::new();
    if n > 15 {
        append_str(&mut s, "<p class=\"note\">… and ");
        proof {
            assert(s@ =~= "<p class=\"note\">… and "@);
        }
        push_decimal(&mut s, (n - 15) as u128);
        append_str(&mut s, " more</p>\n");
    }
    s
}

fn bus_line(report: &Report, cells: &ReportCells) -> (s: String)
    requires
        cells_fit(*report, *cells),
    ensures
        s@ == bus_html(*report, *cells),
{
    if report.authors.len() == 0 {
        return String::new();
    }
    let top = &report.authors[0];
    let mut t = String::new();
    match bus_factor_verdict(report.bus_factor_flags()) {
        BusFactor::Crisis => {
            append_str(&mut t, "<strong>Bus factor crisis:</strong> ");
            proof {
                assert(t@ =~= "<strong>Bus factor crisis:</strong> "@);
            }
            push_esc(&mut t, top.name.as_str());
            append_str(&mut t, " owns ");
            append_str(&mut t, cells.shares[0].as_str());
            append_str(&mut t, "% of commits and has been inactive for 6+ months.");
            verdict_string("crit", t.as_str())
        },
        BusFactor::SingleOwner => {
            append_str(&mut t, "<strong>Bus factor 1:</strong> ");
            proof {
                assert(t@ =~= "<strong>Bus factor 1:</strong> "@);
            }
            push_esc(&mut t, top.name.as_str());
            append_str(&mut t, " owns ");
            append_str(&mut t, cells.shares[0].as_str());
            append_str(&mut t, "% of all commits.");
            verdict_string("warn", t.as_str())
        },
        BusFactor::Departed => {
            append_str(&mut t, "Top all-time contributor ");
            proof {
                assert(t@ =~= "Top all-time contributor "@);
            }
            push_esc(&mut t, top.name.as_str());
            append_str(&mut t, " has been inactive for 6+ months.");
            verdict_string("warn", t.as_str())
        },
        BusFactor::Healthy => String::new(),
    }
}

fn contributors_line(report: &Report) -> (s: String)
    ensures
        s@ == contributors_html(*report),
{
    let n = report.authors.len();
    let active = report.active_authors_last_year;
    let class = verdict_class(contributors_severity(active, n));
    let mut t = String::new();
    push_decimal(&mut t, n as u128);
    proof {
        assert(t@ =~= decimal(n as nat));
    }
    append_str(&mut t, " contributors total, ");
    push_decimal(&mut t, active as u128);
    append_str(&mut t, " active in the last year.");
    verdict_string(class, t.as_str())
}

fn silos_line(report: &Report) -> (s: String)
    ensures
        s@ == silos_html(*report),
{
    let silos = report.silos();
    if silos.len() == 0 {
        return String::new();
    }
    let ghost ps = ranked_silos(report.files@);
    let n: usize = if silos.len() < 5 { silos.len() } else { 5 };
    let mut items: Vec<String> = Vec::new();
    let mut k: usize = 0;
    while k < n
        invariant
            k <= n,
            n <= silos@.len(),
            silos@.len() == ps.len(),
            ps == ranked_silos(report.files@),
            silo_table(ps, report.files@),
            forall|j: int| 0 <= j < silos@.len() ==> *(#[trigger] silos@[j]) == report.files@[ps[j] as int],
            views(items@) == ps.take(k as int).map_values(|i: usize| silo_item(*report, i as int)),
        decreases n - k,
    {
        let f = silos[k];
        proof {
            assert(*silos@[k as int] == report.files@[ps[k as int] as int]);
            assert(ps.contains(ps[k as int]));
            assert(ps[k as int] < report.files@.len());
            assert(ps.contains((ps[k as int] as int) as usize));
            assert(silo(report.files@[ps[k as int] as int]));
        }
        let mut item = String::new();
        push_code(&mut item, f.path.as_str());
        proof {
            assert(item@ =~= code(f.path@));
        }
        append_str(&mut item, " (only ");
        push_esc(&mut item, f.authors[0].as_str());
        append_str(&mut item, ")");
        let ghost before = items@;
        items.push(item);
        proof {
            assert(views(items@) =~= views(before).push(silo_item(*report, ps[k as int] as int)));
            assert(ps.take(k + 1).map_values(|i: usize| silo_item(*report, i as int)) =~= ps.take(
                k as int,
            ).map_values(|i: usize| silo_item(*report, i as int)).push(silo_item(*report, ps[k as int] as int)));
        }
        k = k + 1;
    }
    let all = join_strings(&items, ", ");
    let mut t = String::new();
    append_str(&mut t, "<strong>Knowledge silos</strong> — single-author hot files: ");
    proof {
        assert(t@ =~= "<strong>Knowledge silos</strong> — single-author hot files: "@);
    }
    append_str(&mut t, all.as_str());
    append_str(&mut t, ".");
    verdict_string("warn", t.as_str())
}

fn ownership(report: &Report, cells: &ReportCells) -> (s: String)
    requires
        cells_fit(*report, *cells),
    ensures
        s@ == ownership_html(*report, *cells),
{
    proof {
        reveal(ownership_html);
    }
    let mut s = String::new();
    append_str(&mut s, "<h2>👥 Ownership &amp; Bus Factor (full history, no merges)</h2>\n");
    proof {
        assert(s@ =~= "<h2>👥 Ownership &amp; Bus Factor (full history, no merges)</h2>\n"@);
    }
    append_str(&mut s, "<table><thead><tr><th>Author</th><th class=\"num\">Commits</th><th class=\"num\">Share</th><th>Last active</th></tr></thead><tbody>\n");
    let n = if report.authors.len() < 15 { report.authors.len() } else { 15 };
    let mut rows = String::new();
    let mut k: usize = 0;
    while k < n
        invariant
            k <= n,
            n <= report.authors@.len(),
            cells_fit(*report, *cells),
            rows@ == author_rows(*report, *cells, k as int),
        decreases n - k,
    {
        let row = author_line(report, cells, k);
        append_str(&mut rows, row.as_str());
        k = k + 1;
    }
    append_str(&mut s, rows.as_str());
    append_str(&mut s, "</tbody></table>\n");
    let more = more_line(report.authors.len());
    append_str(&mut s, more.as_str());
    let bus = bus_line(report, cells);
    append_str(&mut s, bus.as_str());
    let contributors = contributors_line(report);
    append_str(&mut s, contributors.as_str());
    let silos = silos_line(report);
    append_str(&mut s, silos.as_str());
    append_str(&mut s, "<p class=\"note\">Caveat: squash-merge workflows compress authorship to whoever merged.</p>\n");
    s
}

// ---- velocity ----
pub open spec fn month_row(r: Report, c: ReportCells, k: int) -> Seq<char> {
    let m = r.velocity.months@[k];
    "<tr>"@ + cell_html(0, "<code>"@ + m.0@ + "</code>"@) + td_num(m.1 as nat) + cell_html(2, bar_span(c.bars@[k]@))
        + "</tr>\n"@
}

/// A velocity bar of the given width in percent.
pub open spec fn bar_span(width: Seq<char>) -> Seq<char> {
    "<span class=\"bar\" style=\"width:"@ + width + "%\"></span>"@
}

/// The rows of the months from position `from` up to `k`.
pub open spec fn month_rows(r: Report, c: ReportCells, from: int, k: int) -> Seq<char>
    decreases k - from,
{
    if k <= from {
        Seq::empty()
    } else {
        month_rows(r, c, from, k - 1) + month_row(r, c, k - 1)
    }
}

pub open spec fn omitted_html(start: int) -> Seq<char> {
    if start > 0 {
        "<p class=\"note\">… "@ + decimal(start as nat) + " earlier months omitted</p>\n"@
    } else {
        Seq::empty()
    }
}

#[verifier::opaque]
pub open spec fn velocity_html(r: Report, c: ReportCells) -> Seq<char> {
    let n = r.velocity.months@.len() as int;
    if n == 0 {
        "<h2>📊 Commit Velocity (entire history)</h2>\n"@ + "<p class=\"note\">No commits found.</p>\n"@
    } else {
        "<h2>📊 Commit Velocity (entire history)</h2>\n"@
            + month_head_html()
            + month_rows(r, c, first_month(n), n) + "</tbody></table>\n"@ + omitted_html(first_month(n))
            + verdict_p(
            verdict_class_of(trend_severity_of(r.velocity.trend)),
            "Trend: "@ + trend_text(r.velocity.trend) + "."@,
        )
    }
}

fn month_line(report: &Report, cells: &ReportCells, k: usize) -> (s: String)
    requires
        cells_fit(*report, *cells),
        k < report.velocity.months@.len(),
    ensures
        s@ == month_row(*report, *cells, k as int),
{
    let m = &report.velocity.months[k];
    let mut s = String::new();
    append_str(&mut s, "<tr>");
    proof {
        assert(s@ =~= "<tr>"@);
    }
    let mut month = String::new();
    append_str(&mut month, "<code>");
    proof {
        assert(month@ =~= "<code>"@);
    }
    append_str(&mut month, m.0.as_str());
    append_str(&mut month, "</code>");
    push_cell(&mut s, 0, month.as_str());
    push_td_num(&mut s, m.1 as u128);
    let mut bar = String::new();
    append_str(&mut bar, "<span class=\"bar\" style=\"width:");
    proof {
        assert(bar@ =~= "<span class=\"bar\" style=\"width:"@);
    }
    append_str(&mut bar, cells.bars[k].as_str());
    append_str(&mut bar, "%\"></span>");
    push_cell(&mut s, 2, bar.as_str());
    append_str(&mut s, "</tr>\n");
    s
}

fn omitted_line(start: usize) -> (s: String)
    ensures
        s@ == omitted_html(start as int),
{
    let mut s = String::new();
    if start > 0 {
        append_str(&mut s, "<p class=\"note\">… ");
        proof {
            assert(s@ =~= "<p class=\"note\">… "@);
        }
        push_decimal(&mut s, start as u128);
        append_str(&mut s, " earlier months omitted</p>\n");
    }
    s
}

fn velocity(report: &Report, cells: &ReportCells) -> (s: String)
    requires
        cells_fit(*report, *cells),
    ensures
        s@ == velocity_html(*report, *cells),
{
    proof {
        reveal(velocity_html);
    }
    let months = &report.velocity.months;
    let mut s = String::new();
    append_str(&mut s, "<h2>📊 Commit Velocity (entire history)</h2>\n");
    proof {
        assert(s@ =~= "<h2>📊 Commit Velocity (entire history)</h2>\n"@);
    }
    if months.len() == 0 {
        append_str(&mut s, "<p class=\"note\">No commits found.</p>\n");
        return s;
    }
    append_str(&mut s, "<table><thead><tr><th>Month</th><th class=\"num\">Commits</th><th></th></tr></thead><tbody>\n");
    let start = first_shown_month(months.len());
    let mut rows = String::new();
    let mut k: usize = start;
    while k < months.len()
        invariant
            start <= k <= months@.len(),
            months == &report.velocity.months,
            cells_fit(*report, *cells),
            rows@ == month_rows(*report, *cells, start as int, k as int),
        decreases months@.len() - k,
    {
        let row = month_line(report, cells, k);
        append_str(&mut rows, row.as_str());
        k = k + 1;
    }
    append_str(&mut s, rows.as_str());
    append_str(&mut s, "</tbody></table>\n");
    let omitted = omitted_line(start);
    append_str(&mut s, omitted.as_str());
    let mut t = String::new();
    append_str(&mut t, "Trend: ");
    proof {
        assert(t@ =~= "Trend: "@);
    }
    append_str(&mut t, report.velocity.trend.describe());
    append_str(&mut t, ".");
    let v = verdict_string(verdict_class(trend_severity(report.velocity.trend)), t.as_str());
    append_str(&mut s, v.as_str());
    s
}

// ---- firefighting ----
pub open spec fn recent_item(summary: Seq<char>) -> Seq<char> {
    "<li>"@ + code(summary) + "</li>\n"@
}

pub open spec fn recent_items(r: Report, k: int) -> Seq<char>
    decreases k,
{
    if k <= 0 {
        Seq::empty()
    } else {
        recent_items(r, k - 1) + recent_item(r.firefight.recent@[k - 1]@)
    }
}

pub open spec fn recent_html(r: Report) -> Seq<char> {
    if r.firefight.recent@.len() == 0 {
        Seq::empty()
    } else {
        "<ul>\n"@ + recent_items(r, r.firefight.recent@.len() as int) + "</ul>\n"@
    }
}

#[verifier::opaque]
pub open spec fn firefight_html(r: Report, c: ReportCells) -> Seq<char> {
    let count = r.firefight.count_last_year;
    "<h2>🚒 Firefighting (reverts/hotfixes, last 365 days)</h2>\n"@ + "<p>"@ + decimal(count as nat)
        + " revert/hotfix/rollback commits ("@ + c.per_month@ + "/month).</p>\n"@ + recent_html(r)
        + verdict_p(verdict_class_of(firefight_severity_of(count)), firefight_verdict_of(count) + "."@)
}

fn recent_list(report: &Report) -> (s: String)
    ensures
        s@ == recent_html(*report),
{
    let recent = &report.firefight.recent;
    let mut s = String::new();
    if recent.len() == 0 {
        return s;
    }
    append_str(&mut s, "<ul>\n");
    proof {
        assert(s@ =~= "<ul>\n"@);
    }
    let mut items = String::new();
    let mut k: usize = 0;
    while k < recent.len()
        invariant
            k <= recent@.len(),
            recent == &report.firefight.recent,
            items@ == recent_items(*report, k as int),
        decreases recent@.len() - k,
    {
        let mut item = String::new();
        append_str(&mut item, "<li>");
        proof {
            assert(item@ =~= "<li>"@);
        }
        push_code(&mut item, recent[k].as_str());
        append_str(&mut item, "</li>\n");
        append_str(&mut items, item.as_str());
        k = k + 1;
    }
    append_str(&mut s, items.as_str());
    append_str(&mut s, "</ul>\n");
    s
}

fn firefight(report: &Report, cells: &ReportCells) -> (s: String)
    ensures
        s@ == firefight_html(*report, *cells),
{
    proof {
        reveal(firefight_html);
    }
    let count = report.firefight.count_last_year;
    let mut s = String::new();
    append_str(&mut s, "<h2>🚒 Firefighting (reverts/hotfixes, last 365 days)</h2>\n");
    proof {
        assert(s@ =~= "<h2>🚒 Firefighting (reverts/hotfixes, last 365 days)</h2>\n"@);
    }
    append_str(&mut s, "<p>");
    push_decimal(&mut s, count as u128);
    append_str(&mut s, " revert/hotfix/rollback commits (");
    append_str(&mut s, cells.per_month.as_str());
    append_str(&mut s, "/month).</p>\n");
    let recent = recent_list(report);
    append_str(&mut s, recent.as_str());
    let mut t = String::new();
    append_str(&mut t, report.firefight_verdict());
    proof {
        assert(t@ =~= firefight_verdict_of(count));
    }
    append_str(&mut t, ".");
    let v = verdict_string(verdict_class(firefight_severity(count)), t.as_str());
    append_str(&mut s, v.as_str());
    s
}

// ---- the page ----
/// The whole page: the header, the six sections, the footer.
pub open spec fn html_document(r: Report, ctx: Context, c: ReportCells) -> Seq<char> {
    header_html(r, ctx) + hotspots_html(r, c, ctx.top) + churn_html(r, ctx.top) + bugs_html(r, ctx.top)
        + ownership_html(r, c) + velocity_html(r, c) + firefight_html(r, c)
        + "<footer>Generated offline by local-git-ops.</footer>\n"@ + "</main>\n</body>\n</html>\n"@
}

/// The HTML report of `report`, with the cells formatted by the caller.
pub fn html_report(report: &Report, ctx: &Context, cells: &ReportCells) -> (out: String)
    requires
        cells_fit(*report, *cells),
    ensures
        out@ == html_document(*report, *ctx, *cells),
{
    let mut h = header(report, ctx);
    let part = hotspots(report, cells, ctx.top);
    append_str(&mut h, part.as_str());
    let part = churn(report, ctx.top);
    append_str(&mut h, part.as_str());
    let part = bug_clusters(report, cells, ctx.top);
    append_str(&mut h, part.as_str());
    let part = ownership(report, cells);
    append_str(&mut h, part.as_str());
    let part = velocity(report, cells);
    append_str(&mut h, part.as_str());
    let part = firefight(report, cells);
    append_str(&mut h, part.as_str());
    append_str(&mut h, "<footer>Generated offline by local-git-ops.</footer>\n");
    append_str(&mut h, "</main>\n</body>\n</html>\n");
    h
}

// ---- laws ----
/// Law: the page is a complete HTML document: it begins with the doctype
/// and ends by closing `main`, `body` and `html`.
pub proof fn law_html_document_frame(r: Report, ctx: Context, c: ReportCells)
    ensures
        has_prefix(html_document(r, ctx, c), "<!DOCTYPE html>"@),
        has_suffix(html_document(r, ctx, c), "</main>\n</body>\n</html>\n"@),
{
    reveal(header_top);
    let first = "<!DOCTYPE html>\n<html lang=\"en\">\n<head>\n<meta charset=\"utf-8\">\n<meta name=\"viewport\" content=\"width=device-width, initial-scale=1\">\n<title>Repository Health Report — "@;
    reveal_strlit("<!DOCTYPE html>\n<html lang=\"en\">\n<head>\n<meta charset=\"utf-8\">\n<meta name=\"viewport\" content=\"width=device-width, initial-scale=1\">\n<title>Repository Health Report — ");
    reveal_strlit("<!DOCTYPE html>");
    assert(has_prefix(first, "<!DOCTYPE html>"@)) by {
        assert(first.subrange(0, 15) =~= "<!DOCTYPE html>"@);
    }
    let doc = html_document(r, ctx, c);
    assert(first.len() <= doc.len());
    assert(doc.subrange(0, 15) =~= first.subrange(0, 15));
    let end = "</main>\n</body>\n</html>\n"@;
    assert(doc.subrange(doc.len() - end.len(), doc.len() as int) =~= end);
}

/// Law: the scope shows as one item of the fact list and nowhere else: the
/// pages of two contexts that differ only in their scope differ only in
/// that item, which is empty without a scope.
pub proof fn law_html_scope_item(r: Report, ctx1: Context, ctx2: Context, c: ReportCells)
    requires
        ctx1.repo_root == ctx2.repo_root,
        ctx1.branch == ctx2.branch,
        ctx1.window_desc == ctx2.window_desc,
        ctx1.excluded_authors == ctx2.excluded_authors,
        ctx1.top == ctx2.top,
    ensures
        exists|pre: Seq<char>, post: Seq<char>|
            html_document(r, ctx1, c) == pre + scope_item(ctx1.scope) + post && html_document(r, ctx2, c)
                == pre + scope_item(ctx2.scope) + post,
        scope_item(None) == Seq::<char>::empty(),
{
    let pre = header_top(ctx1.repo_root@, ctx1.branch@, ctx1.window_desc@);
    let post = excluded_item(ctx1.excluded_authors) + header_bottom(r) + hotspots_html(r, c, ctx1.top)
        + churn_html(r, ctx1.top) + bugs_html(r, ctx1.top) + ownership_html(r, c) + velocity_html(r, c)
        + firefight_html(r, c) + "<footer>Generated offline by local-git-ops.</footer>\n"@
        + "</main>\n</body>\n</html>\n"@;
    assert(html_document(r, ctx1, c) =~= pre + scope_item(ctx1.scope) + post);
    assert(html_document(r, ctx2, c) =~= pre + scope_item(ctx2.scope) + post);
}

/// Law: the excluded authors show as one item of the fact list and nowhere
/// else: the pages of two contexts that differ only in their excluded
/// authors differ only in that item, which is empty when nobody is excluded.
pub proof fn law_html_excluded_item(r: Report, ctx1: Context, ctx2: Context, c: ReportCells)
    requires
        ctx1.repo_root == ctx2.repo_root,
        ctx1.branch == ctx2.branch,
        ctx1.window_desc == ctx2.window_desc,
        ctx1.scope == ctx2.scope,
        ctx1.top == ctx2.top,
    ensures
        exists|pre: Seq<char>, post: Seq<char>|
            html_document(r, ctx1, c) == pre + excluded_item(ctx1.excluded_authors) + post && html_document(
                r,
                ctx2,
                c,
            ) == pre + excluded_item(ctx2.excluded_authors) + post,
        excluded_item(None) == Seq::<char>::empty(),
{
    let pre = header_top(ctx1.repo_root@, ctx1.branch@, ctx1.window_desc@) + scope_item(ctx1.scope);
    let post = header_bottom(r) + hotspots_html(r, c, ctx1.top) + churn_html(r, ctx1.top) + bugs_html(r, ctx1.top)
        + ownership_html(r, c) + velocity_html(r, c) + firefight_html(r, c)
        + "<footer>Generated offline by local-git-ops.</footer>\n"@ + "</main>\n</body>\n</html>\n"@;
    assert(html_document(r, ctx1, c) =~= pre + excluded_item(ctx1.excluded_authors) + post);
    assert(html_document(r, ctx2, c) =~= pre + excluded_item(ctx2.excluded_authors) + post);
}

/// Law: every value the page takes from the repository or the context
/// (paths, author names, commit summaries, repository root, branch, window,
/// scope, excluded authors) is shown through `esc`, which holds no control
/// character and none of `<`, `>`, `"` and `'`: no value can open a tag or
/// leave an attribute.
pub proof fn law_html_values_inert(v: Seq<char>)
    ensures
        free_of_controls(esc(v)),
        absent(esc(v), '<'),
        absent(esc(v), '>'),
        absent(esc(v), '"'),
        absent(esc(v), '\''),
{
    law_html_is_inert(v);
}

proof fn lemma_tr_open2(a: (u8, Seq<char>), b: (u8, Seq<char>))
    ensures
        tr_open(seq![a, b]) == "<tr>"@ + cell_html(a.0, a.1) + cell_html(b.0, b.1),
{
    reveal_with_fuel(tr_open, 8);
    assert(seq![a].drop_last() =~= Seq::<(u8, Seq<char>)>::empty());
    assert(seq![a, b].drop_last() =~= seq![a]);
}

proof fn lemma_head_open2(a: (u8, Seq<char>), b: (u8, Seq<char>))
    ensures
        head_open(seq![a, b]) == "<table><thead><tr>"@ + head_cell_html(a.0, a.1) + head_cell_html(b.0, b.1),
{
    reveal_with_fuel(head_open, 8);
    assert(seq![a].drop_last() =~= Seq::<(u8, Seq<char>)>::empty());
    assert(seq![a, b].drop_last() =~= seq![a]);
}

proof fn lemma_tr_open3(a: (u8, Seq<char>), b: (u8, Seq<char>), c: (u8, Seq<char>))
    ensures
        tr_open(seq![a, b, c]) == "<tr>"@ + cell_html(a.0, a.1) + cell_html(b.0, b.1) + cell_html(c.0, c.1),
{
    reveal_with_fuel(tr_open, 8);
    assert(seq![a].drop_last() =~= Seq::<(u8, Seq<char>)>::empty());
    assert(seq![a, b].drop_last() =~= seq![a]);
    assert(seq![a, b, c].drop_last() =~= seq![a, b]);
}

proof fn lemma_head_open3(a: (u8, Seq<char>), b: (u8, Seq<char>), c: (u8, Seq<char>))
    ensures
        head_open(seq![a, b, c]) == "<table><thead><tr>"@ + head_cell_html(a.0, a.1) + head_cell_html(b.0, b.1) + head_cell_html(c.0, c.1),
{
    reveal_with_fuel(head_open, 8);
    assert(seq![a].drop_last() =~= Seq::<(u8, Seq<char>)>::empty());
    assert(seq![a, b].drop_last() =~= seq![a]);
    assert(seq![a, b, c].drop_last() =~= seq![a, b]);
}

proof fn lemma_tr_open4(a: (u8, Seq<char>), b: (u8, Seq<char>), c: (u8, Seq<char>), d: (u8, Seq<char>))
    ensures
        tr_open(seq![a, b, c, d]) == "<tr>"@ + cell_html(a.0, a.1) + cell_html(b.0, b.1) + cell_html(c.0, c.1) + cell_html(d.0, d.1),
{
    reveal_with_fuel(tr_open, 8);
    assert(seq![a].drop_last() =~= Seq::<(u8, Seq<char>)>::empty());
    assert(seq![a, b].drop_last() =~= seq![a]);
    assert(seq![a, b, c].drop_last() =~= seq![a, b]);
    assert(seq![a, b, c, d].drop_last() =~= seq![a, b, c]);
}

proof fn lemma_head_open4(a: (u8, Seq<char>), b: (u8, Seq<char>), c: (u8, Seq<char>), d: (u8, Seq<char>))
    ensures
        head_open(seq![a, b, c, d]) == "<table><thead><tr>"@ + head_cell_html(a.0, a.1) + head_cell_html(b.0, b.1) + head_cell_html(c.0, c.1) + head_cell_html(d.0, d.1),
{
    reveal_with_fuel(head_open, 8);
    assert(seq![a].drop_last() =~= Seq::<(u8, Seq<char>)>::empty());
    assert(seq![a, b].drop_last() =~= seq![a]);
    assert(seq![a, b, c].drop_last() =~= seq![a, b]);
    assert(seq![a, b, c, d].drop_last() =~= seq![a, b, c]);
}

proof fn lemma_tr_open7(a: (u8, Seq<char>), b: (u8, Seq<char>), c: (u8, Seq<char>), d: (u8, Seq<char>), e: (u8, Seq<char>), f: (u8, Seq<char>), g: (u8, Seq<char>))
    ensures
        tr_open(seq![a, b, c, d, e, f, g]) == "<tr>"@ + cell_html(a.0, a.1) + cell_html(b.0, b.1) + cell_html(c.0, c.1) + cell_html(d.0, d.1) + cell_html(e.0, e.1) + cell_html(f.0, f.1) + cell_html(g.0, g.1),
{
    reveal_with_fuel(tr_open, 8);
    assert(seq![a].drop_last() =~= Seq::<(u8, Seq<char>)>::empty());
    assert(seq![a, b].drop_last() =~= seq![a]);
    assert(seq![a, b, c].drop_last() =~= seq![a, b]);
    assert(seq![a, b, c, d].drop_last() =~= seq![a, b, c]);
    assert(seq![a, b, c, d, e].drop_last() =~= seq![a, b, c, d]);
    assert(seq![a, b, c, d, e, f].drop_last() =~= seq![a, b, c, d, e]);
    assert(seq![a, b, c, d, e, f, g].drop_last() =~= seq![a, b, c, d, e, f]);
}

proof fn lemma_head_open7(a: (u8, Seq<char>), b: (u8, Seq<char>), c: (u8, Seq<char>), d: (u8, Seq<char>), e: (u8, Seq<char>), f: (u8, Seq<char>), g: (u8, Seq<char>))
    ensures
        head_open(seq![a, b, c, d, e, f, g]) == "<table><thead><tr>"@ + head_cell_html(a.0, a.1) + head_cell_html(b.0, b.1) + head_cell_html(c.0, c.1) + head_cell_html(d.0, d.1) + head_cell_html(e.0, e.1) + head_cell_html(f.0, f.1) + head_cell_html(g.0, g.1),
{
    reveal_with_fuel(head_open, 8);
    assert(seq![a].drop_last() =~= Seq::<(u8, Seq<char>)>::empty());
    assert(seq![a, b].drop_last() =~= seq![a]);
    assert(seq![a, b, c].drop_last() =~= seq![a, b]);
    assert(seq![a, b, c, d].drop_last() =~= seq![a, b, c]);
    assert(seq![a, b, c, d, e].drop_last() =~= seq![a, b, c, d]);
    assert(seq![a, b, c, d, e, f].drop_last() =~= seq![a, b, c, d, e]);
    assert(seq![a, b, c, d, e, f, g].drop_last() =~= seq![a, b, c, d, e, f]);
}

/// Law: the hotspot table's columns line up: its head names Risk, File,
/// Score, Changes, Lines, Bug fixes and Authors (all but the first two
/// right-aligned), and the row of a file holds, in that order and with the
/// same alignment, its risk badge, its path, its score cell, its churn, its
/// line count, its bug fixes and its number of authors.
pub proof fn law_html_hotspot_columns(r: Report, c: ReportCells, i: int)
    ensures
        hotspot_head_html() == html_head(
            seq![
                (0u8, "Risk"@),
                (0u8, "File"@),
                (1u8, "Score"@),
                (1u8, "Changes"@),
                (1u8, "Lines"@),
                (1u8, "Bug fixes"@),
                (1u8, "Authors"@),
            ],
        ),
        hotspot_row(r, c, i) == html_row(
            seq![
                (0u8, badge_markup(risk_of(c.high_scores@[i], r.files@[i].bug_fixes))),
                (0u8, code(r.files@[i].path@)),
                (1u8, c.scores@[i]@),
                (1u8, decimal(r.files@[i].churn as nat)),
                (1u8, decimal(lines_of(r.files@[i]))),
                (1u8, decimal(r.files@[i].bug_fixes as nat)),
                (1u8, decimal(r.files@[i].authors@.len())),
            ],
        ),
{
    lemma_head_open7(
        (0u8, "Risk"@),
        (0u8, "File"@),
        (1u8, "Score"@),
        (1u8, "Changes"@),
        (1u8, "Lines"@),
        (1u8, "Bug fixes"@),
        (1u8, "Authors"@),
    );
    reveal_strlit("<table><thead><tr><th>Risk</th><th>File</th><th class=\"num\">Score</th><th class=\"num\">Changes</th><th class=\"num\">Lines</th><th class=\"num\">Bug fixes</th><th class=\"num\">Authors</th></tr></thead><tbody>\n");
    reveal_strlit("<table><thead><tr>");
    reveal_strlit("</tr></thead><tbody>\n");
    reveal_strlit("<th>");
    reveal_strlit("<th class=\"num\">");
    reveal_strlit("</th>");
    reveal_strlit("Risk");
    reveal_strlit("File");
    reveal_strlit("Score");
    reveal_strlit("Changes");
    reveal_strlit("Lines");
    reveal_strlit("Bug fixes");
    reveal_strlit("Authors");
    assert(hotspot_head_html() =~= "<table><thead><tr>"@ + ("<th>"@ + "Risk"@ + "</th>"@) + ("<th>"@ + "File"@ + "</th>"@)
        + ("<th class=\"num\">"@ + "Score"@ + "</th>"@) + ("<th class=\"num\">"@ + "Changes"@ + "</th>"@) + (
    "<th class=\"num\">"@ + "Lines"@ + "</th>"@) + ("<th class=\"num\">"@ + "Bug fixes"@ + "</th>"@) + (
    "<th class=\"num\">"@ + "Authors"@ + "</th>"@) + "</tr></thead><tbody>\n"@);
    let f = r.files@[i];
    lemma_tr_open7(
        (0u8, badge_markup(risk_of(c.high_scores@[i], f.bug_fixes))),
        (0u8, code(f.path@)),
        (1u8, c.scores@[i]@),
        (1u8, decimal(f.churn as nat)),
        (1u8, decimal(lines_of(f))),
        (1u8, decimal(f.bug_fixes as nat)),
        (1u8, decimal(f.authors@.len())),
    );
}

/// Law: the churn table's columns line up: File, Changes, Authors and Last
/// touched over each file's path, churn, number of authors and age.
pub proof fn law_html_churn_columns(r: Report, i: int)
    ensures
        churn_head_html() == html_head(
            seq![(0u8, "File"@), (1u8, "Changes"@), (1u8, "Authors"@), (0u8, "Last touched"@)],
        ),
        churn_row(r, i) == html_row(
            seq![
                (0u8, code(r.files@[i].path@)),
                (1u8, decimal(r.files@[i].churn as nat)),
                (1u8, decimal(r.files@[i].authors@.len())),
                (0u8, days_ago_text(r.now, r.files@[i].last_touched)),
            ],
        ),
{
    lemma_head_open4((0u8, "File"@), (1u8, "Changes"@), (1u8, "Authors"@), (0u8, "Last touched"@));
    reveal_strlit("<table><thead><tr><th>File</th><th class=\"num\">Changes</th><th class=\"num\">Authors</th><th>Last touched</th></tr></thead><tbody>\n");
    reveal_strlit("<table><thead><tr>");
    reveal_strlit("</tr></thead><tbody>\n");
    reveal_strlit("<th>");
    reveal_strlit("<th class=\"num\">");
    reveal_strlit("</th>");
    reveal_strlit("File");
    reveal_strlit("Changes");
    reveal_strlit("Authors");
    reveal_strlit("Last touched");
    assert(churn_head_html() =~= "<table><thead><tr>"@ + ("<th>"@ + "File"@ + "</th>"@) + ("<th class=\"num\">"@
        + "Changes"@ + "</th>"@) + ("<th class=\"num\">"@ + "Authors"@ + "</th>"@) + ("<th>"@ + "Last touched"@
        + "</th>"@) + "</tr></thead><tbody>\n"@);
    let f = r.files@[i];
    lemma_tr_open4(
        (0u8, code(f.path@)),
        (1u8, decimal(f.churn as nat)),
        (1u8, decimal(f.authors@.len())),
        (0u8, days_ago_text(r.now, f.last_touched)),
    );
}

/// Law: the bug-cluster table's columns line up: File, Bug fixes and Total
/// changes over each file's path, bug fixes and churn.
pub proof fn law_html_bug_columns(r: Report, i: int)
    ensures
        bug_head_html() == html_head(seq![(0u8, "File"@), (1u8, "Bug fixes"@), (1u8, "Total changes"@)]),
        bug_row(r, i) == html_row(
            seq![
                (0u8, code(r.files@[i].path@)),
                (1u8, decimal(r.files@[i].bug_fixes as nat)),
                (1u8, decimal(r.files@[i].churn as nat)),
            ],
        ),
{
    lemma_head_open3((0u8, "File"@), (1u8, "Bug fixes"@), (1u8, "Total changes"@));
    reveal_strlit("<table><thead><tr><th>File</th><th class=\"num\">Bug fixes</th><th class=\"num\">Total changes</th></tr></thead><tbody>\n");
    reveal_strlit("<table><thead><tr>");
    reveal_strlit("</tr></thead><tbody>\n");
    reveal_strlit("<th>");
    reveal_strlit("<th class=\"num\">");
    reveal_strlit("</th>");
    reveal_strlit("File");
    reveal_strlit("Bug fixes");
    reveal_strlit("Total changes");
    assert(bug_head_html() =~= "<table><thead><tr>"@ + ("<th>"@ + "File"@ + "</th>"@) + ("<th class=\"num\">"@
        + "Bug fixes"@ + "</th>"@) + ("<th class=\"num\">"@ + "Total changes"@ + "</th>"@) + "</tr></thead><tbody>\n"@);
    let f = r.files@[i];
    lemma_tr_open3((0u8, code(f.path@)), (1u8, decimal(f.bug_fixes as nat)), (1u8, decimal(f.churn as nat)));
}

/// Law: the ownership table's columns line up: Author, Commits, Share and
/// Last active over each author's name, commit count, share in percent and
/// age of the last commit.
pub proof fn law_html_author_columns(r: Report, c: ReportCells, k: int)
    ensures
        author_head_html() == html_head(
            seq![(0u8, "Author"@), (1u8, "Commits"@), (1u8, "Share"@), (0u8, "Last active"@)],
        ),
        author_row(r, c, k) == html_row(
            seq![
                (0u8, esc(r.authors@[k].name@)),
                (1u8, decimal(r.authors@[k].commits as nat)),
                (1u8, c.shares@[k]@ + "%"@),
                (0u8, days_ago_text(r.now, r.authors@[k].last_active)),
            ],
        ),
{
    lemma_head_open4((0u8, "Author"@), (1u8, "Commits"@), (1u8, "Share"@), (0u8, "Last active"@));
    reveal_strlit("<table><thead><tr><th>Author</th><th class=\"num\">Commits</th><th class=\"num\">Share</th><th>Last active</th></tr></thead><tbody>\n");
    reveal_strlit("<table><thead><tr>");
    reveal_strlit("</tr></thead><tbody>\n");
    reveal_strlit("<th>");
    reveal_strlit("<th class=\"num\">");
    reveal_strlit("</th>");
    reveal_strlit("Author");
    reveal_strlit("Commits");
    reveal_strlit("Share");
    reveal_strlit("Last active");
    assert(author_head_html() =~= "<table><thead><tr>"@ + ("<th>"@ + "Author"@ + "</th>"@) + ("<th class=\"num\">"@
        + "Commits"@ + "</th>"@) + ("<th class=\"num\">"@ + "Share"@ + "</th>"@) + ("<th>"@ + "Last active"@
        + "</th>"@) + "</tr></thead><tbody>\n"@);
    let a = r.authors@[k];
    lemma_tr_open4(
        (0u8, esc(a.name@)),
        (1u8, decimal(a.commits as nat)),
        (1u8, c.shares@[k]@ + "%"@),
        (0u8, days_ago_text(r.now, a.last_active)),
    );
}

/// Law: the velocity table's columns line up: Month, Commits and the bar
/// over each month's key, commit count and bar.
pub proof fn law_html_month_columns(r: Report, c: ReportCells, k: int)
    ensures
        month_head_html() == html_head(seq![(0u8, "Month"@), (1u8, "Commits"@), (0u8, Seq::<char>::empty())]),
        month_row(r, c, k) == html_row(
            seq![
                (0u8, "<code>"@ + r.velocity.months@[k].0@ + "</code>"@),
                (1u8, decimal(r.velocity.months@[k].1 as nat)),
                (2u8, bar_span(c.bars@[k]@)),
            ],
        ),
{
    lemma_head_open3((0u8, "Month"@), (1u8, "Commits"@), (0u8, Seq::<char>::empty()));
    reveal_strlit("<table><thead><tr><th>Month</th><th class=\"num\">Commits</th><th></th></tr></thead><tbody>\n");
    reveal_strlit("<table><thead><tr>");
    reveal_strlit("</tr></thead><tbody>\n");
    reveal_strlit("<th>");
    reveal_strlit("<th class=\"num\">");
    reveal_strlit("</th>");
    reveal_strlit("Month");
    reveal_strlit("Commits");
    assert(month_head_html() =~= "<table><thead><tr>"@ + ("<th>"@ + "Month"@ + "</th>"@) + ("<th class=\"num\">"@
        + "Commits"@ + "</th>"@) + ("<th>"@ + Seq::<char>::empty() + "</th>"@) + "</tr></thead><tbody>\n"@);
    let m = r.velocity.months@[k];
    lemma_tr_open3(
        (0u8, "<code>"@ + m.0@ + "</code>"@),
        (1u8, decimal(m.1 as nat)),
        (2u8, bar_span(c.bars@[k]@)),
    );
}

} // verus!
