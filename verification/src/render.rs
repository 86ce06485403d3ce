//! Presentation decisions shared by the terminal dashboard and the
//! Markdown and HTML exports: severities, verdict choices, table windows and
//! the HTML verdict and badge markup.
use vstd::prelude::*;
use crate::metrics::{firefight_verdict_of, Risk, Trend};
use crate::text::append_str;

verus! {

/// What the report header shows besides the numbers.
pub struct Context<'a> {
    pub repo_root: &'a str,
    pub branch: &'a str,
    pub scope: Option<&'a str>,
    pub window_desc: &'a str,
    /// Summary of author exclusions (e.g. "dependabot[bot], *[bot]"), if any.
    pub excluded_authors: Option<&'a str>,
    pub top: usize,
}

/// Most contributors listed in the ownership table.
pub const OWNERSHIP_ROWS: usize = 15;

/// Most months listed in the velocity chart.
pub const VELOCITY_MONTHS: usize = 24;

/// Width in characters of the longest terminal velocity bar.
pub const BAR_WIDTH: u64 = 40;

/// The severity of a velocity trend.
pub open spec fn trend_severity_of(t: Trend) -> Risk {
    match t {
        Trend::Steady | Trend::Sparse => Risk::Watch,
        Trend::Spiky => Risk::High,
        Trend::Declining | Trend::Cliff => Risk::Critical,
    }
}

pub fn trend_severity(t: Trend) -> (r: Risk)
    ensures
        r == trend_severity_of(t),
{
    match t {
        Trend::Steady | Trend::Sparse => Risk::Watch,
        Trend::Spiky => Risk::High,
        Trend::Declining | Trend::Cliff => Risk::Critical,
    }
}

/// The severity of a yearly revert/hotfix count: up to 6 is normal, up to
/// 24 elevated, more is critical.
pub open spec fn firefight_severity_of(count: usize) -> Risk {
    if count <= 6 {
        Risk::Watch
    } else if count <= 24 {
        Risk::High
    } else {
        Risk::Critical
    }
}

pub fn firefight_severity(count: usize) -> (r: Risk)
    ensures
        r == firefight_severity_of(count),
{
    if count <= 6 {
        Risk::Watch
    } else if count <= 24 {
        Risk::High
    } else {
        Risk::Critical
    }
}

/// The severity of the contributor summary: high when fewer than a third of
/// the contributors were active in the last year.
pub fn contributors_severity(active: usize, contributors: usize) -> (r: Risk)
    ensures
        r == if active * 3 < contributors {
            Risk::High
        } else {
            Risk::Watch
        },
{
    if (active as u128) * 3 < contributors as u128 {
        Risk::High
    } else {
        Risk::Watch
    }
}

/// The bus-factor verdict shown for the top contributor.
#[derive(PartialEq, Eq, Structural, Clone, Copy, Debug)]
pub enum BusFactor {
    /// Dominant and inactive.
    Crisis,
    /// Dominant.
    SingleOwner,
    /// Inactive.
    Departed,
    /// Neither.
    Healthy,
}

/// The verdict for a pair of bus-factor flags.
pub open spec fn bus_factor_of(flags: (bool, bool)) -> BusFactor {
    if flags.0 && flags.1 {
        BusFactor::Crisis
    } else if flags.0 {
        BusFactor::SingleOwner
    } else if flags.1 {
        BusFactor::Departed
    } else {
        BusFactor::Healthy
    }
}

pub fn bus_factor_verdict(flags: (bool, bool)) -> (b: BusFactor)
    ensures
        b == bus_factor_of(flags),
{
    if flags.0 && flags.1 {
        BusFactor::Crisis
    } else if flags.0 {
        BusFactor::SingleOwner
    } else if flags.1 {
        BusFactor::Departed
    } else {
        BusFactor::Healthy
    }
}

/// The first month shown of a velocity chart with `n` months: only the
/// last 24 are listed.
pub fn first_shown_month(n: usize) -> (start: usize)
    ensures
        start == if n > VELOCITY_MONTHS {
            n - VELOCITY_MONTHS
        } else {
            0
        },
{
    if n > VELOCITY_MONTHS {
        n - VELOCITY_MONTHS
    } else {
        0
    }
}

/// Contributors left out of the ownership table (only the first 15 are
/// listed).
pub fn hidden_contributors(n: usize) -> (hidden: usize)
    ensures
        hidden == if n > OWNERSHIP_ROWS {
            n - OWNERSHIP_ROWS
        } else {
            0
        },
{
    if n > OWNERSHIP_ROWS {
        n - OWNERSHIP_ROWS
    } else {
        0
    }
}

/// The length of a terminal velocity bar: `count` scaled so that the
/// busiest month (`max`, at least 1) gets 40 characters, rounded up.
pub fn bar_width(count: u32, max: u32) -> (w: u64)
    ensures
        w == (count as int * 40 + (if max == 0 { 1 } else { max as int }) - 1) / (if max == 0 { 1 } else { max as int }),
{
    let m: u64 = if max == 0 { 1 } else { max as u64 };
    ((count as u64) * BAR_WIDTH + m - 1) / m
}

/// The CSS class of a risk badge.
pub open spec fn badge_class(risk: Risk) -> Seq<char> {
    match risk {
        Risk::Critical => "critical"@,
        Risk::High => "high"@,
        Risk::Watch => "watch"@,
    }
}

/// The label of a risk.
pub open spec fn risk_label(risk: Risk) -> Seq<char> {
    match risk {
        Risk::Critical => "CRITICAL"@,
        Risk::High => "HIGH"@,
        Risk::Watch => "WATCH"@,
    }
}

/// The HTML badge of a risk: `<span class="badge {class}">{label}</span>`.
pub open spec fn badge_markup(risk: Risk) -> Seq<char> {
    "<span class=\"badge "@ + badge_class(risk) + "\">"@ + risk_label(risk) + "</span>"@
}

pub fn badge(risk: Risk) -> (b: String)
    ensures
        b@ == badge_markup(risk),
{
    let class = match risk {
        Risk::Critical => "critical",
        Risk::High => "high",
        Risk::Watch => "watch",
    };
    let mut b = String::new();
    append_str(&mut b, "<span class=\"badge ");
    append_str(&mut b, class);
    append_str(&mut b, "\">");
    append_str(&mut b, risk.label());
    append_str(&mut b, "</span>");
    b
}

/// The HTML verdict class of a severity.
pub open spec fn verdict_class_of(risk: Risk) -> Seq<char> {
    match risk {
        Risk::Critical => "crit"@,
        Risk::High => "warn"@,
        Risk::Watch => "ok"@,
    }
}

pub fn verdict_class(risk: Risk) -> (c: &'static str)
    ensures
        c@ == verdict_class_of(risk),
{
    match risk {
        Risk::Critical => "crit",
        Risk::High => "warn",
        Risk::Watch => "ok",
    }
}

/// Appends an HTML verdict paragraph: `<p class="verdict {class}">{text}</p>`
/// and a newline. `text` is markup and is not escaped here.
pub fn verdict(h: &mut String, class: &str, text: &str)
    ensures
        final(h)@ == old(h)@ + "<p class=\"verdict "@ + class@ + "\">"@ + text@ + "</p>\n"@,
{
    append_str(h, "<p class=\"verdict ");
    append_str(h, class);
    append_str(h, "\">");
    append_str(h, text);
    append_str(h, "</p>\n");
}

/// Law: the firefighting verdict and its severity agree: the verdict is
/// "occasional" (or none) exactly when the severity is the watch level,
/// "elevated" exactly when it is high, and "frequent" exactly when it is
/// critical.
pub proof fn law_firefight_verdict_matches_severity(count: usize)
    ensures
        (firefight_verdict_of(count) == "occasional firefighting — normal"@ || firefight_verdict_of(count)
            == "no revert/hotfix commits found — stable team, or commit messages don't say"@) <==> (
        firefight_severity_of(count) == Risk::Watch),
        (firefight_verdict_of(count) == "elevated revert/hotfix rate — review test and deploy reliability"@) <==> (
        firefight_severity_of(count) == Risk::High),
        (firefight_verdict_of(count) == "frequent reverts/hotfixes — the team does not trust its deploy process"@)
            <==> (firefight_severity_of(count) == Risk::Critical),
{
    reveal_strlit("occasional firefighting — normal");
    reveal_strlit("no revert/hotfix commits found — stable team, or commit messages don't say");
    reveal_strlit("elevated revert/hotfix rate — review test and deploy reliability");
    reveal_strlit("frequent reverts/hotfixes — the team does not trust its deploy process");
    let o = "occasional firefighting — normal"@;
    let z = "no revert/hotfix commits found — stable team, or commit messages don't say"@;
    let e = "elevated revert/hotfix rate — review test and deploy reliability"@;
    let f = "frequent reverts/hotfixes — the team does not trust its deploy process"@;
    assert(o[0] != e[0] && o[0] != f[0] && z[0] != e[0] && z[0] != f[0] && e[0] != f[0]);
}

} // verus!
