//! What the Markdown and HTML reports share: the cells that the caller
//! formats (hotspot scores, ownership shares and bar widths are floating
//! point), the generation date, and small appenders.
use vstd::prelude::*;
use crate::metrics::{FileMetrics, Report};
use crate::text::{append_str, decimal, decimal_string};

verus! {

/// The presentation cells of a report, formatted by the caller.
pub struct ReportCells {
    /// The hotspot score of each file of `report.files`, without decimals.
    pub scores: Vec<String>,
    /// Whether the hotspot score of each file is at least 50.
    pub high_scores: Vec<bool>,
    /// The ownership share in percent of each author of `report.authors`,
    /// without decimals.
    pub shares: Vec<String>,
    /// The bar width in percent of each month of the velocity chart, without
    /// decimals.
    pub bars: Vec<String>,
    /// Revert/hotfix commits per month over the last year, one decimal.
    pub per_month: String,
}

/// The cells fit the report: one per file, author and month; and every
/// position of the report's hotspot and bug-cluster lists points into its
/// file table.
pub open spec fn cells_fit(r: Report, c: ReportCells) -> bool {
    &&& c.scores@.len() == r.files@.len()
    &&& c.high_scores@.len() == r.files@.len()
    &&& c.shares@.len() == r.authors@.len()
    &&& c.bars@.len() == r.velocity.months@.len()
    &&& forall|k: int| 0 <= k < r.hotspots@.len() ==> (#[trigger] r.hotspots@[k]) < r.files@.len()
    &&& forall|k: int| 0 <= k < r.bug_clusters@.len() ==> (#[trigger] r.bug_clusters@[k]) < r.files@.len()
}

/// The calendar day (`YYYY-MM-DD`, UTC) of a time, as `chrono` formats it;
/// `None` when the time is out of `chrono`'s range.
pub uninterp spec fn day_of(time: i64) -> Option<Seq<char>>;

/// `chrono::DateTime::from_timestamp(time, 0)` formatted with `%Y-%m-%d`.
/// The claim: the result is the named `day_of(time)`.
#[verifier::external_body]
fn day_key(time: i64) -> (r: Option<String>)
    ensures
        match r {
            Some(k) => day_of(time) == Some(k@),
            None => day_of(time) is None,
        },
{
    match chrono::DateTime::from_timestamp(time, 0) {
        Some(d) => Some(d.format("%Y-%m-%d").to_string()),
        None => None,
    }
}

/// The date line of a report: the day of `now`, empty when it has none.
pub open spec fn date_text(now: i64) -> Seq<char> {
    match day_of(now) {
        Some(d) => d,
        None => Seq::empty(),
    }
}

/// The generation date of a report made at `now`.
pub fn report_date(now: i64) -> (d: String)
    ensures
        d@ == date_text(now),
{
    match day_key(now) {
        Some(d) => d,
        None => String::new(),
    }
}

/// The shorter of `n` and `top`.
pub open spec fn shown(n: int, top: int) -> int {
    if n < top {
        n
    } else {
        top
    }
}

/// The lines count of a file as the tables show it (0 when absent).
pub open spec fn lines_of(f: FileMetrics) -> nat {
    match f.loc {
        Some(l) => l as nat,
        None => 0,
    }
}

/// The first month shown: only the last 24 are.
pub open spec fn first_month(n: int) -> int {
    if n > 24 {
        n - 24
    } else {
        0
    }
}

/// Appends the decimal digits of `n`.
pub fn push_decimal(h: &mut String, n: u128)
    ensures
        final(h)@ == old(h)@ + decimal(n as nat),
{
    let s = decimal_string(n);
    append_str(h, s.as_str());
}

} // verus!
