//! Aggregation of history data into a single `Report` consumed by the
//! terminal dashboard and the exporters.
use vstd::prelude::*;
use crate::filter::{is_noise_path, PathFilter};
use crate::pattern::regex_finds;
use crate::history::{CommitMeta, History, DAY};
use crate::text::{
    append_str, decimal, has_prefix, insert_sorted_unique, lemma_seq_lt_order, seq_lt, signed_decimal,
    signed_decimal_string, str_lt, strictly_sorted, views,
};

verus! {

/// Top contributor silent for more than this many days = likely gone.
pub const INACTIVE_DAYS: i64 = 180;

/// Churn threshold for a single-author file to count as a knowledge silo.
pub const SILO_MIN_CHURN: u32 = 5;

/// Firefight commits per year considered normal.
pub const FIREFIGHT_NORMAL_PER_YEAR: usize = 6;

/// Every change points at a recorded commit, and the counters fit.
pub open spec fn history_wf(h: History) -> bool {
    &&& forall|k: int| 0 <= k < h.changes@.len() ==> (#[trigger] h.changes@[k]).meta_idx < h.metas@.len()
    &&& h.changes@.len() <= u32::MAX
    &&& h.metas@.len() <= u32::MAX
}

/// The path of change `k`.
pub open spec fn change_path(h: History, k: int) -> Seq<char> {
    h.changes@[k].path@
}

/// The commit of change `k`.
pub open spec fn change_meta(h: History, k: int) -> CommitMeta {
    h.metas@[h.changes@[k].meta_idx as int]
}

/// Number of changes to `p` among the first `n`.
pub open spec fn churn_in(h: History, p: Seq<char>, n: int) -> nat
    decreases n,
{
    if n <= 0 {
        0
    } else {
        churn_in(h, p, n - 1) + if change_path(h, n - 1) == p {
            1nat
        } else {
            0nat
        }
    }
}

/// Number of bug-fix changes to `p` among the first `n`.
pub open spec fn bug_fixes_in(h: History, p: Seq<char>, n: int) -> nat
    decreases n,
{
    if n <= 0 {
        0
    } else {
        bug_fixes_in(h, p, n - 1) + if change_path(h, n - 1) == p && change_meta(h, n - 1).is_bugfix {
            1nat
        } else {
            0nat
        }
    }
}

/// The latest commit time of a change to `p` among the first `n`, and
/// never earlier than 0.
pub open spec fn last_touched_in(h: History, p: Seq<char>, n: int) -> i64
    decreases n,
{
    if n <= 0 {
        0
    } else if change_path(h, n - 1) == p && change_meta(h, n - 1).time > last_touched_in(h, p, n - 1) {
        change_meta(h, n - 1).time
    } else {
        last_touched_in(h, p, n - 1)
    }
}

/// Some change to `p` was made by author `a`.
pub open spec fn touched_by(h: History, p: Seq<char>, a: Seq<char>) -> bool {
    exists|k: int| 0 <= k < h.changes@.len() && change_path(h, k) == p && (#[trigger] change_meta(h, k)).author@ == a
}

/// The line count recorded for `p`; the last entry wins.
pub open spec fn loc_of(loc: Seq<(String, usize)>, p: Seq<char>) -> Option<usize>
    decreases loc.len(),
{
    if loc.len() == 0 {
        None
    } else if loc.last().0@ == p {
        Some(loc.last().1)
    } else {
        loc_of(loc.drop_last(), p)
    }
}

pub struct FileMetrics {
    pub path: String,
    pub churn: u32,
    pub bug_fixes: u32,
    /// The distinct authors, in lexicographic order.
    pub authors: Vec<String>,
    pub last_touched: i64,
    pub loc: Option<usize>,
}

/// `f` holds the metrics of its path in history `h`.
pub open spec fn file_entry(f: FileMetrics, h: History, loc: Seq<(String, usize)>) -> bool {
    &&& f.churn == churn_in(h, f.path@, h.changes@.len() as int)
    &&& f.bug_fixes == bug_fixes_in(h, f.path@, h.changes@.len() as int)
    &&& strictly_sorted(views(f.authors@))
    &&& forall|a: Seq<char>| #[trigger] views(f.authors@).contains(a) <==> touched_by(h, f.path@, a)
    &&& f.last_touched == last_touched_in(h, f.path@, h.changes@.len() as int)
    &&& f.loc == loc_of(loc, f.path@)
}

proof fn lemma_churn_bounded(h: History, p: Seq<char>, n: int)
    requires
        0 <= n,
    ensures
        churn_in(h, p, n) <= n,
        bug_fixes_in(h, p, n) <= churn_in(h, p, n),
    decreases n,
{
    if n > 0 {
        lemma_churn_bounded(h, p, n - 1);
    }
}

fn loc_lookup(loc: &Vec<(String, usize)>, p: &String) -> (r: Option<usize>)
    ensures
        r == loc_of(loc@, p@),
{
    let mut i: usize = loc.len();
    assert(loc@.take(i as int) =~= loc@);
    while i > 0
        invariant
            i <= loc.len(),
            loc_of(loc@, p@) == loc_of(loc@.take(i as int), p@),
        decreases i,
    {
        assert(loc@.take(i as int).drop_last() =~= loc@.take(i - 1));
        if loc[i - 1].0 == *p {
            return Some(loc[i - 1].1);
        }
        i = i - 1;
    }
    None
}

/// The metrics of one path.
fn file_metrics_of(h: &History, loc: &Vec<(String, usize)>, p: &String) -> (f: FileMetrics)
    requires
        history_wf(*h),
    ensures
        f.path@ == p@,
        file_entry(f, *h, loc@),
{
    let mut churn: u32 = 0;
    let mut bug_fixes: u32 = 0;
    let mut authors: Vec<String> = Vec::new();
    let mut last: i64 = 0;
    let mut k: usize = 0;
    while k < h.changes.len()
        invariant
            history_wf(*h),
            k <= h.changes@.len(),
            churn == churn_in(*h, p@, k as int),
            bug_fixes == bug_fixes_in(*h, p@, k as int),
            last == last_touched_in(*h, p@, k as int),
            strictly_sorted(views(authors@)),
            forall|a: Seq<char>| #[trigger] views(authors@).contains(a) <==> exists|j: int|
                0 <= j < k && change_path(*h, j) == p@ && (#[trigger] change_meta(*h, j)).author@ == a,
        decreases h.changes@.len() - k,
    {
        proof {
            lemma_churn_bounded(*h, p@, k as int);
        }
        let c = &h.changes[k];
        if c.path == *p {
            let m = &h.metas[c.meta_idx];
            churn = churn + 1;
            if m.is_bugfix {
                bug_fixes = bug_fixes + 1;
            }
            if m.time > last {
                last = m.time;
            }
            let ghost before = views(authors@);
            insert_sorted_unique(&mut authors, m.author.clone());
            proof {
                assert forall|a: Seq<char>| #[trigger] views(authors@).contains(a) <==> exists|j: int|
                    0 <= j < k + 1 && change_path(*h, j) == p@ && (#[trigger] change_meta(*h, j)).author@ == a by {
                    if exists|j: int| 0 <= j < k + 1 && change_path(*h, j) == p@ && (#[trigger] change_meta(*h, j)).author@ == a {
                        let j = choose|j: int| 0 <= j < k + 1 && change_path(*h, j) == p@ && (#[trigger] change_meta(*h, j)).author@ == a;
                        if j < k {
                            assert(before.contains(a));
                        }
                    }
                    if views(authors@).contains(a) && !before.contains(a) {
                        assert(change_meta(*h, k as int).author@ == a);
                    }
                }
            }
        } else {
            proof {
                assert forall|a: Seq<char>| #[trigger] views(authors@).contains(a) <==> exists|j: int|
                    0 <= j < k + 1 && change_path(*h, j) == p@ && (#[trigger] change_meta(*h, j)).author@ == a by {
                    if exists|j: int| 0 <= j < k + 1 && change_path(*h, j) == p@ && (#[trigger] change_meta(*h, j)).author@ == a {
                        let j = choose|j: int| 0 <= j < k + 1 && change_path(*h, j) == p@ && (#[trigger] change_meta(*h, j)).author@ == a;
                        assert(j < k);
                    }
                }
            }
        }
        k = k + 1;
    }
    let file_loc = loc_lookup(loc, p);
    FileMetrics { path: p.clone(), churn, bug_fixes, authors, last_touched: last, loc: file_loc }
}


/// The order of the churn table: more changes first, then by path.
pub open spec fn file_before(a: FileMetrics, b: FileMetrics) -> bool {
    a.churn > b.churn || (a.churn == b.churn && seq_lt(a.path@, b.path@))
}

proof fn lemma_file_before_order(a: FileMetrics, b: FileMetrics, c: FileMetrics)
    ensures
        !file_before(a, a),
        file_before(a, b) ==> !file_before(b, a),
        file_before(a, b) && file_before(b, c) ==> file_before(a, c),
        a.path@ != b.path@ ==> file_before(a, b) || file_before(b, a),
{
    lemma_seq_lt_order(a.path@, b.path@, c.path@);
    lemma_seq_lt_order(a.path@, a.path@, a.path@);
    lemma_seq_lt_order(b.path@, a.path@, c.path@);
}

fn file_goes_before(a: &FileMetrics, b: &FileMetrics) -> (r: bool)
    ensures
        r == file_before(*a, *b),
{
    a.churn > b.churn || (a.churn == b.churn && str_lt(a.path.as_str(), b.path.as_str()))
}

/// A change to `p` passes the filter somewhere in the history.
pub open spec fn changed_and_admitted(h: History, filter: PathFilter, p: Seq<char>) -> bool {
    exists|k: int| 0 <= k < h.changes@.len() && #[trigger] change_path(h, k) == p && filter.admits(p)
}

/// `files` is the churn table of `h`: one entry per path changed in the
/// window and admitted by the filter, each with that path's metrics, in
/// the table's order.
pub open spec fn churn_table(
    files: Seq<FileMetrics>,
    h: History,
    loc: Seq<(String, usize)>,
    filter: PathFilter,
) -> bool {
    &&& forall|i: int| 0 <= i < files.len() ==> file_entry(#[trigger] files[i], h, loc)
    &&& forall|p: Seq<char>|
        changed_and_admitted(h, filter, p) <==> exists|i: int| 0 <= i < files.len() && (#[trigger] files[i]).path@ == p
    &&& forall|i: int, j: int| 0 <= i < j < files.len() ==> file_before(#[trigger] files[i], #[trigger] files[j])
}

/// The distinct admitted paths, in order of first appearance.
fn admitted_paths(h: &History, filter: &PathFilter) -> (paths: Vec<String>)
    ensures
        forall|i: int, j: int| 0 <= i < j < paths@.len() ==> paths@[i]@ != paths@[j]@,
        forall|p: Seq<char>| #[trigger] views(paths@).contains(p) <==> changed_and_admitted(*h, *filter, p),
{
    let mut paths: Vec<String> = Vec::new();
    let mut k: usize = 0;
    while k < h.changes.len()
        invariant
            k <= h.changes@.len(),
            forall|i: int, j: int| 0 <= i < j < paths@.len() ==> paths@[i]@ != paths@[j]@,
            forall|p: Seq<char>| #[trigger] views(paths@).contains(p) <==> exists|j: int|
                0 <= j < k && #[trigger] change_path(*h, j) == p && filter.admits(p),
        decreases h.changes@.len() - k,
    {
        let c = &h.changes[k];
        if filter.included(c.path.as_str()) {
            let mut present = false;
            let mut i: usize = 0;
            while i < paths.len()
                invariant
                    i <= paths@.len(),
                    present <==> exists|j: int| 0 <= j < i && paths@[j]@ == c.path@,
                decreases paths@.len() - i,
            {
                if paths[i] == c.path {
                    present = true;
                }
                i = i + 1;
            }
            let ghost before = paths@;
            if !present {
                paths.push(c.path.clone());
                proof {
                    assert(views(paths@) =~= views(before).push(c.path@));
                }
            }
            proof {
                assert forall|p: Seq<char>| #[trigger] views(paths@).contains(p) <==> exists|j: int|
                    0 <= j < k + 1 && #[trigger] change_path(*h, j) == p && filter.admits(p) by {
                    if exists|j: int| 0 <= j < k + 1 && #[trigger] change_path(*h, j) == p && filter.admits(p) {
                        let j = choose|j: int| 0 <= j < k + 1 && #[trigger] change_path(*h, j) == p && filter.admits(p);
                        if j == k && present {
                            let w = choose|w: int| 0 <= w < before.len() && before[w]@ == c.path@;
                            assert(views(before)[w] == p);
                            assert(views(paths@)[w] == p);
                        } else if j == k && !present {
                            assert(views(paths@)[before.len() as int] == p);
                        } else {
                            assert(views(before).contains(p));
                            let w = choose|w: int| 0 <= w < views(before).len() && views(before)[w] == p;
                            assert(views(paths@)[w] == p);
                        }
                    }
                    if views(paths@).contains(p) {
                        let w = choose|w: int| 0 <= w < views(paths@).len() && views(paths@)[w] == p;
                        if w < before.len() {
                            assert(views(before)[w] == p);
                            assert(views(before).contains(p));
                        } else {
                            assert(change_path(*h, k as int) == p);
                        }
                    }
                }
            }
        } else {
            proof {
                assert forall|p: Seq<char>| #[trigger] views(paths@).contains(p) <==> exists|j: int|
                    0 <= j < k + 1 && #[trigger] change_path(*h, j) == p && filter.admits(p) by {
                    if exists|j: int| 0 <= j < k + 1 && #[trigger] change_path(*h, j) == p && filter.admits(p) {
                        let j = choose|j: int| 0 <= j < k + 1 && #[trigger] change_path(*h, j) == p && filter.admits(p);
                        assert(j != k);
                    }
                }
            }
        }
        k = k + 1;
    }
    paths
}

/// Builds the churn table: every admitted path of the window with its
/// churn, bug fixes, authors, last change and line count, ordered by churn
/// (descending), then path.
fn churn_table_of(h: &History, loc: &Vec<(String, usize)>, filter: &PathFilter) -> (files: Vec<FileMetrics>)
    requires
        history_wf(*h),
    ensures
        churn_table(files@, *h, loc@, *filter),
{
    let paths = admitted_paths(h, filter);
    let mut files: Vec<FileMetrics> = Vec::new();
    let mut i: usize = 0;
    while i < paths.len()
        invariant
            history_wf(*h),
            i <= paths@.len(),
            forall|a: int, b: int| 0 <= a < b < paths@.len() ==> paths@[a]@ != paths@[b]@,
            forall|p: Seq<char>| #[trigger] views(paths@).contains(p) <==> changed_and_admitted(*h, *filter, p),
            forall|j: int| 0 <= j < files@.len() ==> file_entry(#[trigger] files@[j], *h, loc@),
            forall|p: Seq<char>|
                #[trigger] views(paths@.take(i as int)).contains(p) <==> exists|j: int| 0 <= j < files@.len() && (#[trigger] files@[j]).path@ == p,
            forall|a: int, b: int| 0 <= a < b < files@.len() ==> file_before(#[trigger] files@[a], #[trigger] files@[b]),
        decreases paths@.len() - i,
    {
        let f = file_metrics_of(h, loc, &paths[i]);
        let mut pos: usize = 0;
        while pos < files.len() && file_goes_before(&files[pos], &f)
            invariant
                pos <= files@.len(),
                forall|j: int| 0 <= j < pos ==> file_before(#[trigger] files@[j], f),
            decreases files@.len() - pos,
        {
            pos = pos + 1;
        }
        let ghost old_files = files@;
        proof {
            // f's path is new: it differs from every path already placed
            assert forall|j: int| 0 <= j < old_files.len() implies (#[trigger] old_files[j]).path@ != f.path@ by {
                assert(views(paths@.take(i as int)).contains(old_files[j].path@));
                let w = choose|w: int| 0 <= w < paths@.take(i as int).len() && views(paths@.take(i as int))[w] == old_files[j].path@;
                assert(paths@[w]@ == old_files[j].path@);
                assert(paths@[i as int]@ == f.path@);
            }
            if pos < old_files.len() {
                lemma_file_before_order(old_files[pos as int], f, old_files[pos as int]);
                assert(file_before(f, old_files[pos as int]));
            }
        }
        files.insert(pos, f);
        proof {
            let nf = files@;
            assert(nf =~= old_files.insert(pos as int, f));
            assert forall|a: int, b: int| 0 <= a < b < nf.len() implies file_before(#[trigger] nf[a], #[trigger] nf[b]) by {
                if b < pos {
                } else if a < pos && b == pos {
                } else if a < pos && b > pos {
                    assert(nf[a] == old_files[a]);
                    assert(nf[b] == old_files[b - 1]);
                } else if a == pos {
                    assert(nf[b] == old_files[b - 1]);
                    if b - 1 > pos {
                        assert(file_before(old_files[pos as int], old_files[b - 1]));
                        lemma_file_before_order(f, old_files[pos as int], old_files[b - 1]);
                    }
                } else {
                    assert(nf[a] == old_files[a - 1]);
                    assert(nf[b] == old_files[b - 1]);
                }
            }
            assert forall|j: int| 0 <= j < nf.len() implies file_entry(#[trigger] nf[j], *h, loc@) by {
                if j < pos {
                    assert(nf[j] == old_files[j]);
                } else if j > pos {
                    assert(nf[j] == old_files[j - 1]);
                }
            }
            assert(paths@.take(i + 1) =~= paths@.take(i as int).push(paths@[i as int]));
            assert forall|p: Seq<char>|
                #[trigger] views(paths@.take(i + 1)).contains(p) <==> exists|j: int| 0 <= j < nf.len() && (#[trigger] nf[j]).path@ == p by {
                assert(views(paths@.take(i + 1)) =~= views(paths@.take(i as int)).push(f.path@));
                if views(paths@.take(i as int)).contains(p) {
                    let j = choose|j: int| 0 <= j < old_files.len() && (#[trigger] old_files[j]).path@ == p;
                    if j < pos {
                        assert(nf[j] == old_files[j]);
                    } else {
                        assert(nf[j + 1] == old_files[j]);
                    }
                }
                if p == f.path@ {
                    assert(nf[pos as int] == f);
                }
                let vt = views(paths@.take(i as int));
                if exists|j: int| 0 <= j < nf.len() && (#[trigger] nf[j]).path@ == p {
                    let j = choose|j: int| 0 <= j < nf.len() && (#[trigger] nf[j]).path@ == p;
                    if j == pos {
                        assert(views(paths@.take(i + 1))[i as int] == p);
                    } else {
                        if j < pos {
                            assert(nf[j] == old_files[j]);
                        } else {
                            assert(nf[j] == old_files[j - 1]);
                        }
                        assert(vt.contains(p));
                        let w = choose|w: int| 0 <= w < vt.len() && vt[w] == p;
                        assert(views(paths@.take(i + 1))[w] == p);
                    }
                }
                let vt1 = views(paths@.take(i + 1));
                if vt1.contains(p) {
                    let w = choose|w: int| 0 <= w < vt1.len() && vt1[w] == p;
                    if w < i {
                        assert(vt[w] == p);
                        assert(vt.contains(p));
                    }
                }
            }
        }
        i = i + 1;
    }
    proof {
        assert(paths@.take(paths@.len() as int) =~= paths@);
        assert forall|p: Seq<char>|
            changed_and_admitted(*h, *filter, p) <==> exists|j: int| 0 <= j < files@.len() && (#[trigger] files@[j]).path@ == p by {
            assert(views(paths@).contains(p) == changed_and_admitted(*h, *filter, p));
        }
    }
    files
}


pub struct AuthorStats {
    pub name: String,
    pub commits: u32,
    pub last_active: i64,
}

/// Number of participating commits by `a` among the first `n`.
pub open spec fn commits_by(metas: Seq<CommitMeta>, mask: Seq<bool>, a: Seq<char>, n: int) -> nat
    decreases n,
{
    if n <= 0 {
        0
    } else {
        commits_by(metas, mask, a, n - 1) + if mask[n - 1] && metas[n - 1].author@ == a {
            1nat
        } else {
            0nat
        }
    }
}

/// The latest participating commit time of `a` among the first `n`, and
/// never earlier than `floor`.
pub open spec fn last_commit_by(metas: Seq<CommitMeta>, mask: Seq<bool>, a: Seq<char>, n: int, floor: i64) -> i64
    decreases n,
{
    if n <= 0 {
        floor
    } else if mask[n - 1] && metas[n - 1].author@ == a && metas[n - 1].time > last_commit_by(metas, mask, a, n - 1, floor) {
        metas[n - 1].time
    } else {
        last_commit_by(metas, mask, a, n - 1, floor)
    }
}

/// Number of participating commits among the first `n`.
pub open spec fn participating(mask: Seq<bool>, n: int) -> nat
    decreases n,
{
    if n <= 0 {
        0
    } else {
        participating(mask, n - 1) + if mask[n - 1] {
            1nat
        } else {
            0nat
        }
    }
}

/// `a` authored a participating commit.
pub open spec fn contributor(metas: Seq<CommitMeta>, mask: Seq<bool>, a: Seq<char>) -> bool {
    exists|m: int| 0 <= m < metas.len() && mask[m] && (#[trigger] metas[m]).author@ == a
}

/// The order of the ownership table: more commits first, then by name.
pub open spec fn author_before(a: AuthorStats, b: AuthorStats) -> bool {
    a.commits > b.commits || (a.commits == b.commits && seq_lt(a.name@, b.name@))
}

/// `authors` is the ownership table over the participating commits: one
/// entry per contributor with their commit count and latest commit time
/// (never earlier than `floor`), in the table's order.
pub open spec fn ownership_table(
    authors: Seq<AuthorStats>,
    metas: Seq<CommitMeta>,
    mask: Seq<bool>,
    floor: i64,
) -> bool {
    &&& forall|i: int|
        0 <= i < authors.len() ==> (#[trigger] authors[i]).commits == commits_by(
            metas,
            mask,
            authors[i].name@,
            metas.len() as int,
        ) && authors[i].last_active == last_commit_by(
            metas,
            mask,
            authors[i].name@,
            metas.len() as int,
            floor,
        )
    &&& forall|a: Seq<char>|
        contributor(metas, mask, a) <==> exists|i: int| 0 <= i < authors.len() && (#[trigger] authors[i]).name@ == a
    &&& forall|i: int, j: int| 0 <= i < j < authors.len() ==> author_before(#[trigger] authors[i], #[trigger] authors[j])
}

proof fn lemma_author_before_order(a: AuthorStats, b: AuthorStats, c: AuthorStats)
    ensures
        !author_before(a, a),
        author_before(a, b) ==> !author_before(b, a),
        author_before(a, b) && author_before(b, c) ==> author_before(a, c),
        a.name@ != b.name@ ==> author_before(a, b) || author_before(b, a),
{
    lemma_seq_lt_order(a.name@, b.name@, c.name@);
    lemma_seq_lt_order(a.name@, a.name@, a.name@);
    lemma_seq_lt_order(b.name@, a.name@, c.name@);
}

fn author_goes_before(a: &AuthorStats, b: &AuthorStats) -> (r: bool)
    ensures
        r == author_before(*a, *b),
{
    a.commits > b.commits || (a.commits == b.commits && str_lt(a.name.as_str(), b.name.as_str()))
}

proof fn lemma_counts_bounded(metas: Seq<CommitMeta>, mask: Seq<bool>, a: Seq<char>, n: int)
    requires
        0 <= n,
    ensures
        commits_by(metas, mask, a, n) <= n,
        participating(mask, n) <= n,
    decreases n,
{
    if n > 0 {
        lemma_counts_bounded(metas, mask, a, n - 1);
    }
}

fn count_participating(mask: &Vec<bool>) -> (n: u32)
    requires
        mask@.len() <= u32::MAX,
    ensures
        n == participating(mask@, mask@.len() as int),
{
    let mut n: u32 = 0;
    let mut m: usize = 0;
    while m < mask.len()
        invariant
            m <= mask@.len(),
            mask@.len() <= u32::MAX,
            n == participating(mask@, m as int),
        decreases mask@.len() - m,
    {
        proof {
            lemma_counts_bounded(Seq::empty(), mask@, Seq::empty(), m as int);
        }
        if mask[m] {
            n = n + 1;
        }
        m = m + 1;
    }
    n
}

/// The distinct authors of the participating commits, in order of first
/// appearance.
fn contributors(metas: &Vec<CommitMeta>, mask: &Vec<bool>) -> (names: Vec<String>)
    requires
        mask@.len() == metas@.len(),
    ensures
        forall|i: int, j: int| 0 <= i < j < names@.len() ==> names@[i]@ != names@[j]@,
        forall|a: Seq<char>| #[trigger] views(names@).contains(a) <==> contributor(metas@, mask@, a),
{
    let mut names: Vec<String> = Vec::new();
    let mut m: usize = 0;
    while m < metas.len()
        invariant
            m <= metas@.len(),
            mask@.len() == metas@.len(),
            forall|i: int, j: int| 0 <= i < j < names@.len() ==> names@[i]@ != names@[j]@,
            forall|a: Seq<char>| #[trigger] views(names@).contains(a) <==> exists|j: int|
                0 <= j < m && mask@[j] && (#[trigger] metas@[j]).author@ == a,
        decreases metas@.len() - m,
    {
        let ghost before = names@;
        if mask[m] {
            let author = &metas[m].author;
            let mut present = false;
            let mut i: usize = 0;
            while i < names.len()
                invariant
                    i <= names@.len(),
                    present <==> exists|j: int| 0 <= j < i && names@[j]@ == author@,
                decreases names@.len() - i,
            {
                if names[i] == *author {
                    present = true;
                }
                i = i + 1;
            }
            if !present {
                names.push(author.clone());
                proof {
                    assert(views(names@) =~= views(before).push(author@));
                }
            }
        }
        proof {
            assert forall|a: Seq<char>| #[trigger] views(names@).contains(a) <==> exists|j: int|
                0 <= j < m + 1 && mask@[j] && (#[trigger] metas@[j]).author@ == a by {
                if exists|j: int| 0 <= j < m + 1 && mask@[j] && (#[trigger] metas@[j]).author@ == a {
                    let j = choose|j: int| 0 <= j < m + 1 && mask@[j] && (#[trigger] metas@[j]).author@ == a;
                    if j == m && names@ == before {
                        let w = choose|w: int| 0 <= w < before.len() && before[w]@ == metas@[m as int].author@;
                        assert(views(names@)[w] == a);
                    } else if j == m {
                        assert(views(names@)[before.len() as int] == a);
                    } else {
                        assert(views(before).contains(a));
                        let w = choose|w: int| 0 <= w < views(before).len() && views(before)[w] == a;
                        assert(views(names@)[w] == a);
                    }
                }
                if views(names@).contains(a) {
                    let w = choose|w: int| 0 <= w < views(names@).len() && views(names@)[w] == a;
                    if w < before.len() {
                        assert(views(before)[w] == a);
                        assert(views(before).contains(a));
                    } else {
                        assert(metas@[m as int].author@ == a);
                    }
                }
            }
        }
        m = m + 1;
    }
    proof {
        assert forall|a: Seq<char>| #[trigger] views(names@).contains(a) <==> contributor(metas@, mask@, a) by {
            if contributor(metas@, mask@, a) {
                let j = choose|j: int| 0 <= j < metas@.len() && mask@[j] && (#[trigger] metas@[j]).author@ == a;
                assert(exists|j: int| 0 <= j < metas@.len() && mask@[j] && (#[trigger] metas@[j]).author@ == a);
            }
        }
    }
    names
}

/// The statistics of one contributor.
fn author_stats_of(metas: &Vec<CommitMeta>, mask: &Vec<bool>, name: &String, floor: i64) -> (s: AuthorStats)
    requires
        mask@.len() == metas@.len(),
        metas@.len() <= u32::MAX,
    ensures
        s.name@ == name@,
        s.commits == commits_by(metas@, mask@, name@, metas@.len() as int),
        s.last_active == last_commit_by(metas@, mask@, name@, metas@.len() as int, floor),
{
    let mut commits: u32 = 0;
    let mut last: i64 = floor;
    let mut m: usize = 0;
    while m < metas.len()
        invariant
            m <= metas@.len(),
            mask@.len() == metas@.len(),
            metas@.len() <= u32::MAX,
            commits == commits_by(metas@, mask@, name@, m as int),
            last == last_commit_by(metas@, mask@, name@, m as int, floor),
        decreases metas@.len() - m,
    {
        proof {
            lemma_counts_bounded(metas@, mask@, name@, m as int);
        }
        if mask[m] && metas[m].author == *name {
            commits = commits + 1;
            if metas[m].time > last {
                last = metas[m].time;
            }
        }
        m = m + 1;
    }
    AuthorStats { name: name.clone(), commits, last_active: last }
}

/// Builds the ownership table over the participating commits.
fn ownership_of(metas: &Vec<CommitMeta>, mask: &Vec<bool>, floor: i64) -> (authors: Vec<AuthorStats>)
    requires
        mask@.len() == metas@.len(),
        metas@.len() <= u32::MAX,
    ensures
        ownership_table(authors@, metas@, mask@, floor),
{
    let names = contributors(metas, mask);
    let mut authors: Vec<AuthorStats> = Vec::new();
    let mut i: usize = 0;
    while i < names.len()
        invariant
            i <= names@.len(),
            mask@.len() == metas@.len(),
            metas@.len() <= u32::MAX,
            forall|a: int, b: int| 0 <= a < b < names@.len() ==> names@[a]@ != names@[b]@,
            forall|a: Seq<char>| #[trigger] views(names@).contains(a) <==> contributor(metas@, mask@, a),
            forall|j: int|
                0 <= j < authors@.len() ==> (#[trigger] authors@[j]).commits == commits_by(
                    metas@,
                    mask@,
                    authors@[j].name@,
                    metas@.len() as int,
                ) && authors@[j].last_active == last_commit_by(
                    metas@,
                    mask@,
                    authors@[j].name@,
                    metas@.len() as int,
                    floor,
                ),
            forall|a: Seq<char>|
                #[trigger] views(names@.take(i as int)).contains(a) <==> exists|j: int| 0 <= j < authors@.len() && (#[trigger] authors@[j]).name@ == a,
            forall|a: int, b: int| 0 <= a < b < authors@.len() ==> author_before(#[trigger] authors@[a], #[trigger] authors@[b]),
        decreases names@.len() - i,
    {
        let s = author_stats_of(metas, mask, &names[i], floor);
        let mut pos: usize = 0;
        while pos < authors.len() && author_goes_before(&authors[pos], &s)
            invariant
                pos <= authors@.len(),
                forall|j: int| 0 <= j < pos ==> author_before(#[trigger] authors@[j], s),
            decreases authors@.len() - pos,
        {
            pos = pos + 1;
        }
        let ghost old_authors = authors@;
        proof {
            assert forall|j: int| 0 <= j < old_authors.len() implies (#[trigger] old_authors[j]).name@ != s.name@ by {
                assert(views(names@.take(i as int)).contains(old_authors[j].name@));
                let w = choose|w: int| 0 <= w < names@.take(i as int).len() && views(names@.take(i as int))[w] == old_authors[j].name@;
                assert(names@[w]@ == old_authors[j].name@);
                assert(names@[i as int]@ == s.name@);
            }
            if pos < old_authors.len() {
                lemma_author_before_order(old_authors[pos as int], s, old_authors[pos as int]);
                assert(author_before(s, old_authors[pos as int]));
            }
        }
        authors.insert(pos, s);
        proof {
            let na = authors@;
            assert(na =~= old_authors.insert(pos as int, s));
            assert forall|a: int, b: int| 0 <= a < b < na.len() implies author_before(#[trigger] na[a], #[trigger] na[b]) by {
                if b < pos {
                } else if a < pos && b == pos {
                } else if a < pos && b > pos {
                    assert(na[a] == old_authors[a]);
                    assert(na[b] == old_authors[b - 1]);
                } else if a == pos {
                    assert(na[b] == old_authors[b - 1]);
                    if b - 1 > pos {
                        assert(author_before(old_authors[pos as int], old_authors[b - 1]));
                        lemma_author_before_order(s, old_authors[pos as int], old_authors[b - 1]);
                    }
                } else {
                    assert(na[a] == old_authors[a - 1]);
                    assert(na[b] == old_authors[b - 1]);
                }
            }
            assert forall|j: int|
                0 <= j < na.len() implies (#[trigger] na[j]).commits == commits_by(
                    metas@,
                    mask@,
                    na[j].name@,
                    metas@.len() as int,
                ) && na[j].last_active == last_commit_by(
                    metas@,
                    mask@,
                    na[j].name@,
                    metas@.len() as int,
                    floor,
                ) by {
                if j < pos {
                    assert(na[j] == old_authors[j]);
                } else if j > pos {
                    assert(na[j] == old_authors[j - 1]);
                }
            }
            assert(names@.take(i + 1) =~= names@.take(i as int).push(names@[i as int]));
            assert forall|a: Seq<char>|
                #[trigger] views(names@.take(i + 1)).contains(a) <==> exists|j: int| 0 <= j < na.len() && (#[trigger] na[j]).name@ == a by {
                assert(views(names@.take(i + 1)) =~= views(names@.take(i as int)).push(s.name@));
                let vt = views(names@.take(i as int));
                let vt1 = views(names@.take(i + 1));
                if vt.contains(a) {
                    let j = choose|j: int| 0 <= j < old_authors.len() && (#[trigger] old_authors[j]).name@ == a;
                    if j < pos {
                        assert(na[j] == old_authors[j]);
                    } else {
                        assert(na[j + 1] == old_authors[j]);
                    }
                }
                if a == s.name@ {
                    assert(na[pos as int] == s);
                }
                if exists|j: int| 0 <= j < na.len() && (#[trigger] na[j]).name@ == a {
                    let j = choose|j: int| 0 <= j < na.len() && (#[trigger] na[j]).name@ == a;
                    if j == pos {
                        assert(vt1[i as int] == a);
                    } else {
                        if j < pos {
                            assert(na[j] == old_authors[j]);
                        } else {
                            assert(na[j] == old_authors[j - 1]);
                        }
                        assert(vt.contains(a));
                        let w = choose|w: int| 0 <= w < vt.len() && vt[w] == a;
                        assert(vt1[w] == a);
                    }
                }
                if vt1.contains(a) {
                    let w = choose|w: int| 0 <= w < vt1.len() && vt1[w] == a;
                    if w < i {
                        assert(vt[w] == a);
                        assert(vt.contains(a));
                    }
                }
            }
        }
        i = i + 1;
    }
    proof {
        assert(names@.take(names@.len() as int) =~= names@);
        assert forall|a: Seq<char>|
            contributor(metas@, mask@, a) <==> exists|j: int| 0 <= j < authors@.len() && (#[trigger] authors@[j]).name@ == a by {
            assert(views(names@).contains(a) == contributor(metas@, mask@, a));
        }
    }
    authors
}


/// The calendar month (`YYYY-MM`, UTC) of a commit time, as `chrono`
/// formats it; `None` when the time is out of `chrono`'s range.
pub uninterp spec fn month_of(time: i64) -> Option<Seq<char>>;

/// `chrono::DateTime::from_timestamp(time, 0)` formatted with `%Y-%m`. The
/// claim: the result is the named `month_of(time)`.
#[verifier::external_body]
fn month_key(time: i64) -> (r: Option<String>)
    ensures
        match r {
            Some(k) => month_of(time) == Some(k@),
            None => month_of(time) is None,
        },
{
    match chrono::DateTime::from_timestamp(time, 0) {
        Some(d) => Some(d.format("%Y-%m").to_string()),
        None => None,
    }
}

/// Number of commits among the first `n` in month `key`.
pub open spec fn month_count(metas: Seq<CommitMeta>, key: Seq<char>, n: int) -> nat
    decreases n,
{
    if n <= 0 {
        0
    } else {
        month_count(metas, key, n - 1) + if month_of(metas[n - 1].time) == Some(key) {
            1nat
        } else {
            0nat
        }
    }
}

/// The month keys of a table.
pub open spec fn month_keys(months: Seq<(String, u32)>) -> Seq<Seq<char>> {
    months.map_values(|e: (String, u32)| e.0@)
}

/// The commit counts of a table.
pub open spec fn month_counts(months: Seq<(String, u32)>) -> Seq<u32> {
    months.map_values(|e: (String, u32)| e.1)
}

/// `months` counts the commits per calendar month, ordered by month.
pub open spec fn months_table(months: Seq<(String, u32)>, metas: Seq<CommitMeta>) -> bool {
    &&& strictly_sorted(month_keys(months))
    &&& forall|i: int| 0 <= i < months.len() ==> (#[trigger] months[i]).1 == month_count(metas, months[i].0@, metas.len() as int)
    &&& forall|key: Seq<char>|
        (exists|m: int| 0 <= m < metas.len() && month_of((#[trigger] metas[m]).time) == Some(key))
            <==> month_keys(months).contains(key)
}

/// Sum of a sequence of counts.
pub open spec fn total(s: Seq<u32>) -> nat
    decreases s.len(),
{
    if s.len() == 0 {
        0
    } else {
        total(s.drop_last()) + s.last() as nat
    }
}

/// Sum of the squares of a sequence of counts.
pub open spec fn total_squares(s: Seq<u32>) -> nat
    decreases s.len(),
{
    if s.len() == 0 {
        0
    } else {
        total_squares(s.drop_last()) + (s.last() as nat) * (s.last() as nat)
    }
}

proof fn lemma_month_count_bounded(metas: Seq<CommitMeta>, key: Seq<char>, n: int)
    requires
        0 <= n,
    ensures
        month_count(metas, key, n) <= n,
    decreases n,
{
    if n > 0 {
        lemma_month_count_bounded(metas, key, n - 1);
    }
}

/// Commits per calendar month over the whole history.
fn months_of(metas: &Vec<CommitMeta>) -> (months: Vec<(String, u32)>)
    requires
        metas@.len() <= u32::MAX,
    ensures
        months_table(months@, metas@),
{
    // month of every commit
    let mut keys: Vec<Option<String>> = Vec::new();
    let mut distinct: Vec<String> = Vec::new();
    let mut m: usize = 0;
    while m < metas.len()
        invariant
            m <= metas@.len(),
            keys@.len() == m,
            forall|j: int| 0 <= j < m ==> match #[trigger] keys@[j] {
                Some(k) => month_of(metas@[j].time) == Some(k@),
                None => month_of(metas@[j].time) is None,
            },
            strictly_sorted(views(distinct@)),
            forall|key: Seq<char>| #[trigger] views(distinct@).contains(key) <==> exists|j: int|
                0 <= j < m && month_of((#[trigger] metas@[j]).time) == Some(key),
        decreases metas@.len() - m,
    {
        let k = month_key(metas[m].time);
        let ghost before = views(distinct@);
        match &k {
            Some(key) => {
                insert_sorted_unique(&mut distinct, key.clone());
            },
            None => {},
        }
        keys.push(k);
        proof {
            assert forall|key: Seq<char>| #[trigger] views(distinct@).contains(key) <==> exists|j: int|
                0 <= j < m + 1 && month_of((#[trigger] metas@[j]).time) == Some(key) by {
                if exists|j: int| 0 <= j < m + 1 && month_of((#[trigger] metas@[j]).time) == Some(key) {
                    let j = choose|j: int| 0 <= j < m + 1 && month_of((#[trigger] metas@[j]).time) == Some(key);
                    if j < m {
                        assert(before.contains(key));
                    }
                }
                if views(distinct@).contains(key) && !before.contains(key) {
                    assert(month_of(metas@[m as int].time) == Some(key));
                }
            }
        }
        m = m + 1;
    }
    let mut months: Vec<(String, u32)> = Vec::new();
    let mut i: usize = 0;
    while i < distinct.len()
        invariant
            i <= distinct@.len(),
            keys@.len() == metas@.len(),
            metas@.len() <= u32::MAX,
            forall|j: int| 0 <= j < metas@.len() ==> match #[trigger] keys@[j] {
                Some(k) => month_of(metas@[j].time) == Some(k@),
                None => month_of(metas@[j].time) is None,
            },
            month_keys(months@) == views(distinct@).take(i as int),
            forall|j: int| 0 <= j < months@.len() ==> (#[trigger] months@[j]).1 == month_count(metas@, months@[j].0@, metas@.len() as int),
        decreases distinct@.len() - i,
    {
        let key = &distinct[i];
        let mut count: u32 = 0;
        let mut j: usize = 0;
        while j < keys.len()
            invariant
                j <= keys@.len(),
                keys@.len() == metas@.len(),
                metas@.len() <= u32::MAX,
                forall|j: int| 0 <= j < metas@.len() ==> match #[trigger] keys@[j] {
                    Some(k) => month_of(metas@[j].time) == Some(k@),
                    None => month_of(metas@[j].time) is None,
                },
                count == month_count(metas@, key@, j as int),
            decreases keys@.len() - j,
        {
            proof {
                lemma_month_count_bounded(metas@, key@, j as int);
            }
            match &keys[j] {
                Some(k) => {
                    if *k == *key {
                        count = count + 1;
                    }
                },
                None => {},
            }
            j = j + 1;
        }
        let ghost before = months@;
        months.push((key.clone(), count));
        proof {
            assert(month_keys(months@) =~= month_keys(before).push(key@));
            assert(views(distinct@).take(i + 1) =~= views(distinct@).take(i as int).push(key@));
            assert forall|j: int| 0 <= j < months@.len() implies (#[trigger] months@[j]).1 == month_count(metas@, months@[j].0@, metas@.len() as int) by {
                if j < before.len() {
                    assert(months@[j] == before[j]);
                }
            }
        }
        i = i + 1;
    }
    proof {
        assert(views(distinct@).take(distinct@.len() as int) =~= views(distinct@));
    }
    months
}

#[derive(PartialEq, Eq, Structural, Clone, Copy, Debug)]
pub enum Trend {
    Steady,
    Declining,
    Cliff,
    Spiky,
    Sparse,
}

/// A cliff at position `i` of `tail`: a month of at least 4 commits
/// followed by one with less than half as many, and the months from there
/// on averaging less than half of it.
pub open spec fn cliff_at(tail: Seq<u32>, i: int) -> bool {
    let before = tail[i];
    let rest = tail.subrange(i + 1, tail.len() as int);
    &&& before >= 4
    &&& 2 * tail[i + 1] < before
    &&& 2 * total(rest) < before * rest.len()
}

/// The last twelve months (all of them when there are fewer).
pub open spec fn last_twelve(counts: Seq<u32>) -> Seq<u32> {
    if counts.len() > 12 {
        counts.subrange(counts.len() - 12, counts.len() as int)
    } else {
        counts
    }
}

/// A cliff within the last twelve months.
pub open spec fn has_cliff(counts: Seq<u32>) -> bool {
    exists|i: int| 0 <= i < last_twelve(counts).len() - 1 && #[trigger] cliff_at(last_twelve(counts), i)
}

/// The trend of monthly commit counts (the current, partial month already
/// left out), computed in exact rational arithmetic:
/// - fewer than 6 months: `Sparse`;
/// - a cliff within the last 12 months: `Cliff`;
/// - the last 3 months averaging less than half of the months before
///   (which average above 0): `Declining`;
/// - a standard deviation above 0.8 times the mean (which is above 0):
///   `Spiky`;
/// - otherwise `Steady`.
pub open spec fn trend_of(counts: Seq<u32>) -> Trend {
    let n = counts.len() as int;
    let recent = counts.subrange(n - 3, n);
    let prior = counts.subrange(0, n - 3);
    if n < 6 {
        Trend::Sparse
    } else if has_cliff(counts) {
        Trend::Cliff
    } else if total(prior) > 0 && 2 * prior.len() * total(recent) < 3 * total(prior) {
        Trend::Declining
    } else if total(counts) > 0 && 25 * n * total_squares(counts) > 41 * total(counts) * total(counts) {
        Trend::Spiky
    } else {
        Trend::Steady
    }
}

/// Every count is at most `u32::MAX`, so the sums are bounded by the length.
proof fn lemma_totals_bounded(s: Seq<u32>)
    ensures
        total(s) <= s.len() * 0xffff_ffff,
        total_squares(s) <= s.len() * 0xffff_fffe_0000_0001,
    decreases s.len(),
{
    if s.len() > 0 {
        lemma_totals_bounded(s.drop_last());
        let c = s.last() as int;
        assert(c * c <= 0xffff_fffe_0000_0001) by (nonlinear_arith)
            requires
                0 <= c <= 0xffff_ffff,
        ;
    }
}

/// Sum of `s[from..to]`.
fn sum_range(s: &Vec<u32>, from: usize, to: usize) -> (r: u128)
    requires
        from <= to <= s@.len(),
    ensures
        r == total(s@.subrange(from as int, to as int)),
        r <= (to - from) * 0xffff_ffff,
{
    let mut r: u128 = 0;
    let mut k: usize = from;
    while k < to
        invariant
            from <= k <= to,
            to <= s@.len(),
            r == total(s@.subrange(from as int, k as int)),
            r <= (k - from) * 0xffff_ffff,
        decreases to - k,
    {
        proof {
            assert(s@.subrange(from as int, k + 1).drop_last() =~= s@.subrange(from as int, k as int));
        }
        r = r + s[k] as u128;
        k = k + 1;
    }
    r
}

/// `a / b > c / d` for positive `b` and `d`, decided without multiplying:
/// integer parts first, then the remainders compared through their
/// reciprocals.
fn fraction_greater(a: u128, b: u128, c: u128, d: u128) -> (r: bool)
    requires
        b > 0,
        d > 0,
    ensures
        r == (a * d > c * b),
    decreases b + d,
{
    let qa = a / b;
    let ra = a % b;
    let qc = c / d;
    let rc = c % d;
    proof {
        assert(a == qa * b + ra && ra < b) by (nonlinear_arith)
            requires
                b > 0,
                qa == a / b,
                ra == a % b,
        ;
        assert(c == qc * d + rc && rc < d) by (nonlinear_arith)
            requires
                d > 0,
                qc == c / d,
                rc == c % d,
        ;
    }
    if qa > qc {
        proof {
            assert(a * d > c * b) by (nonlinear_arith)
                requires
                    a == qa * b + ra,
                    c == qc * d + rc,
                    0 <= ra < b,
                    0 <= rc < d,
                    qa >= qc + 1,
                    qc >= 0,
            ;
        }
        true
    } else if qa < qc {
        proof {
            assert(!(a * d > c * b)) by (nonlinear_arith)
                requires
                    a == qa * b + ra,
                    c == qc * d + rc,
                    0 <= ra < b,
                    0 <= rc < d,
                    qc >= qa + 1,
                    qa >= 0,
            ;
        }
        false
    } else {
        proof {
            assert((a * d > c * b) == (ra * d > rc * b)) by (nonlinear_arith)
                requires
                    a == qa * b + ra,
                    c == qa * d + rc,
            ;
        }
        if ra == 0 {
            proof {
                assert(rc * b >= 0) by (nonlinear_arith)
                    requires
                        rc >= 0,
                        b >= 0,
                ;
                assert(ra * d == 0) by (nonlinear_arith)
                    requires
                        ra == 0,
                ;
                assert(!(a * d > c * b));
            }
            false
        } else if rc == 0 {
            proof {
                assert(ra * d > 0) by (nonlinear_arith)
                    requires
                        ra > 0,
                        d > 0,
                ;
                assert(rc * b == 0) by (nonlinear_arith)
                    requires
                        rc == 0,
                ;
                assert(a * d > c * b);
            }
            true
        } else {
            let r = fraction_greater(d, rc, b, ra);
            proof {
                assert((d * ra > b * rc) == (ra * d > rc * b)) by (nonlinear_arith);
                assert(r == (a * d > c * b));
            }
            r
        }
    }
}

/// `s` without its last element (empty stays empty).
pub open spec fn without_last(s: Seq<u32>) -> Seq<u32> {
    if s.len() == 0 {
        s
    } else {
        s.drop_last()
    }
}

/// Classifies the commit rhythm from the monthly counts; the last month is
/// left out as (likely) partial.
pub fn classify_trend(months: &Vec<(String, u32)>) -> (t: Trend)
    ensures
        t == trend_of(without_last(month_counts(months@))),
{
    let mut counts: Vec<u32> = Vec::new();
    let mut i: usize = 0;
    let keep: usize = if months.len() > 0 { months.len() - 1 } else { 0 };
    while i < keep
        invariant
            i <= keep,
            keep <= months@.len(),
            counts@ == month_counts(months@).take(i as int),
        decreases keep - i,
    {
        counts.push(months[i].1);
        proof {
            assert(month_counts(months@).take(i + 1) =~= month_counts(months@).take(i as int).push(months@[i as int].1));
        }
        i = i + 1;
    }
    let ghost all = month_counts(months@);
    proof {
        if months@.len() > 0 {
            assert(counts@ =~= all.drop_last());
        } else {
            assert(counts@ =~= all);
        }
        assert(without_last(all) == counts@);
    }
    let n = counts.len();
    if n < 6 {
        return Trend::Sparse;
    }
    let start = if n > 12 { n - 12 } else { 0 };
    let ghost tail = counts@.subrange(start as int, n as int);
    proof {
        if n > 12 {
        } else {
            assert(tail =~= counts@);
        }
        assert(tail == last_twelve(counts@));
    }
    // a cliff within the last twelve months
    let mut j: usize = start;
    let mut cliff = false;
    while j + 1 < n && !cliff
        invariant
            start <= j < n,
            n - start <= 12,
            n == counts@.len(),
            tail == counts@.subrange(start as int, n as int),
            forall|q: int| 0 <= q < j - start ==> !cliff_at(tail, q),
            cliff ==> j + 1 < n && cliff_at(tail, j - start),
        decreases n - j, if cliff { 0int } else { 1int },
    {
        let before = counts[j] as u128;
        let after = counts[j + 1] as u128;
        let rest = sum_range(&counts, j + 1, n);
        let rest_len = (n - j - 1) as u128;
        proof {
            let q = j - start;
            assert(tail[q] == counts@[j as int]);
            assert(tail[q + 1] == counts@[j + 1]);
            assert(tail.subrange(q + 1, tail.len() as int) =~= counts@.subrange(j + 1, n as int));
            assert(before * rest_len <= 0xffff_ffff * 12) by (nonlinear_arith)
                requires
                    before <= 0xffff_ffff,
                    rest_len <= 12,
            ;
        }
        if before >= 4 && 2 * after < before && 2 * rest < before * rest_len {
            cliff = true;
        } else {
            j = j + 1;
        }
    }
    if cliff {
        proof {
            let q = j - start;
            assert(0 <= q < tail.len() - 1 && cliff_at(tail, q));
            assert(trend_of(counts@) == Trend::Cliff);
        }
        return Trend::Cliff;
    }
    proof {
        assert(!has_cliff(counts@));
    }
    // declining: the last three months against the months before
    let recent = sum_range(&counts, n - 3, n);
    let prior = sum_range(&counts, 0, n - 3);
    let plen = (n - 3) as u128;
    proof {
        assert(2 * plen * recent <= 2 * 0xffff_ffff_ffff_ffff * 0x2_ffff_fffd) by (nonlinear_arith)
            requires
                plen <= 0xffff_ffff_ffff_ffff,
                recent <= 0x2_ffff_fffd,
        ;
    }
    if prior > 0 && 2 * plen * recent < 3 * prior {
        return Trend::Declining;
    }
    // spiky: standard deviation above 0.8 times the mean, that is
    // 25 * n * squares > 41 * sum * sum
    let sum = sum_range(&counts, 0, n);
    proof {
        assert(counts@.subrange(0, n as int) =~= counts@);
    }
    let mut squares: u128 = 0;
    let mut k: usize = 0;
    while k < n
        invariant
            k <= n,
            n == counts@.len(),
            squares == total_squares(counts@.take(k as int)),
        decreases n - k,
    {
        proof {
            assert(counts@.take(k + 1).drop_last() =~= counts@.take(k as int));
            lemma_totals_bounded(counts@.take(k + 1));
            assert((k + 1) * 0xffff_fffe_0000_0001 <= 0x1_0000_0000_0000_0000 * 0xffff_fffe_0000_0001) by (nonlinear_arith)
                requires
                    k + 1 <= 0x1_0000_0000_0000_0000,
            ;
        }
        let c = counts[k] as u128;
        squares = squares + c * c;
        k = k + 1;
    }
    proof {
        assert(counts@.take(n as int) =~= counts@);
    }
    if sum == 0 {
        return Trend::Steady;
    }
    let n128 = n as u128;
    let spiky = fraction_greater(squares, sum, 41 * sum, 25 * n128);
    proof {
        let s = sum as int;
        let q = squares as int;
        let m = n as int;
        assert((q * (25 * m) > (41 * s) * s) == (25 * m * q > 41 * s * s)) by (nonlinear_arith);
    }
    if spiky {
        Trend::Spiky
    } else {
        Trend::Steady
    }
}

/// Law: the current, last month never changes the trend: two tables that
/// agree on every count but the last one are classified alike.
pub proof fn law_trend_ignores_current_month(m1: Seq<(String, u32)>, m2: Seq<(String, u32)>)
    requires
        m1.len() == m2.len(),
        m1.len() > 0,
        forall|i: int| 0 <= i < m1.len() - 1 ==> (#[trigger] m1[i]).1 == m2[i].1,
    ensures
        trend_of(without_last(month_counts(m1))) == trend_of(without_last(month_counts(m2))),
{
    assert(without_last(month_counts(m1)) =~= without_last(month_counts(m2))) by {
        assert forall|i: int| 0 <= i < m1.len() - 1 implies without_last(month_counts(m1))[i] == without_last(month_counts(m2))[i] by {
            assert(m1[i].1 == m2[i].1);
        }
    }
}

/// Law: the trend is `Sparse` exactly when the table has fewer than seven
/// months, that is fewer than six complete ones.
pub proof fn law_trend_sparse_iff_few_months(m: Seq<(String, u32)>)
    ensures
        (trend_of(without_last(month_counts(m))) == Trend::Sparse) <==> m.len() < 7,
{
}

/// Law: the cliff search looks at the most recent months: `last_twelve` is
/// the suffix of the last `min(12, len)` counts.
pub proof fn law_last_twelve_is_recent_suffix(counts: Seq<u32>)
    ensures
        last_twelve(counts).len() == if counts.len() < 12 { counts.len() } else { 12 },
        forall|i: int|
            0 <= i < last_twelve(counts).len() ==> #[trigger] last_twelve(counts)[i] == counts[counts.len()
                - last_twelve(counts).len() + i],
{
}

/// Law: a collapse in the last complete month is a cliff: when the
/// next-to-last count is at least 4 and the last is less than half of it,
/// the trend is `Cliff`, however long the history.
pub proof fn law_recent_drop_is_cliff(counts: Seq<u32>)
    requires
        counts.len() >= 6,
        counts[counts.len() - 2] >= 4,
        2 * counts[counts.len() - 1] < counts[counts.len() - 2],
    ensures
        trend_of(counts) == Trend::Cliff,
{
    let tail = last_twelve(counts);
    let n = counts.len() as int;
    let q = tail.len() - 2;
    assert(tail[q] == counts[n - 2]);
    assert(tail[q + 1] == counts[n - 1]);
    let rest = tail.subrange(q + 1, tail.len() as int);
    assert(rest.len() == 1);
    assert(rest.last() == tail[q + 1]);
    assert(rest.drop_last() =~= Seq::<u32>::empty());
    assert(total(rest.drop_last()) == 0);
    assert(total(rest) == counts[n - 1]);
    assert(2 * total(rest) < tail[q] * rest.len());
    assert(cliff_at(tail, q));
    assert(has_cliff(counts));
}

/// Law: the same on a month table: a drop of more than half from a month of
/// at least 4 commits into the last complete month is a cliff.
pub proof fn law_recent_drop_in_months_is_cliff(m: Seq<(String, u32)>)
    requires
        m.len() >= 7,
        m[m.len() - 3].1 >= 4,
        2 * m[m.len() - 2].1 < m[m.len() - 3].1,
    ensures
        trend_of(without_last(month_counts(m))) == Trend::Cliff,
{
    let counts = without_last(month_counts(m));
    assert(counts[counts.len() - 2] == m[m.len() - 3].1);
    assert(counts[counts.len() - 1] == m[m.len() - 2].1);
    law_recent_drop_is_cliff(counts);
}

proof fn lemma_constant_totals(s: Seq<u32>, c: u32)
    requires
        forall|i: int| 0 <= i < s.len() ==> s[i] == c,
    ensures
        total(s) == s.len() * c,
        total_squares(s) == s.len() * (c * c),
    decreases s.len(),
{
    if s.len() > 0 {
        lemma_constant_totals(s.drop_last(), c);
        assert(total(s) == (s.len() - 1) * c + c) by (nonlinear_arith)
            requires
                total(s) == total(s.drop_last()) + c,
                total(s.drop_last()) == (s.len() - 1) * c,
        ;
        assert(total_squares(s) == (s.len() - 1) * (c * c) + c * c) by (nonlinear_arith)
            requires
                total_squares(s) == total_squares(s.drop_last()) + c * c,
                total_squares(s.drop_last()) == (s.len() - 1) * (c * c),
        ;
        assert((s.len() - 1) * c + c == s.len() * c) by (nonlinear_arith);
        assert((s.len() - 1) * (c * c) + c * c == s.len() * (c * c)) by (nonlinear_arith);
    } else {
        assert(s.len() * c == 0 && s.len() * (c * c) == 0) by (nonlinear_arith)
            requires
                s.len() == 0,
        ;
    }
}

/// Law: a fade to silence below the cliff size is a decline: when every
/// complete month but the last three had the same count of 1 to 3 commits
/// and the last three had none, the trend is `Declining`.
pub proof fn law_fade_out_is_declining(counts: Seq<u32>, c: u32)
    requires
        counts.len() >= 6,
        1 <= c <= 3,
        forall|i: int| 0 <= i < counts.len() - 3 ==> counts[i] == c,
        forall|i: int| counts.len() - 3 <= i < counts.len() ==> counts[i] == 0,
    ensures
        trend_of(counts) == Trend::Declining,
{
    let n = counts.len() as int;
    let tail = last_twelve(counts);
    assert forall|i: int| 0 <= i < tail.len() - 1 implies !#[trigger] cliff_at(tail, i) by {
        assert(tail[i] == counts[n - tail.len() + i]);
    }
    let recent = counts.subrange(n - 3, n);
    let prior = counts.subrange(0, n - 3);
    lemma_constant_totals(recent, 0);
    lemma_constant_totals(prior, c);
    assert(total(prior) > 0) by (nonlinear_arith)
        requires
            total(prior) == prior.len() * c,
            prior.len() >= 3,
            c >= 1,
    ;
}

/// Law: a perfectly even rhythm is steady: six or more complete months with
/// the same count are classified `Steady`.
pub proof fn law_even_rhythm_is_steady(counts: Seq<u32>, c: u32)
    requires
        counts.len() >= 6,
        forall|i: int| 0 <= i < counts.len() ==> counts[i] == c,
    ensures
        trend_of(counts) == Trend::Steady,
{
    let n = counts.len() as int;
    let tail = last_twelve(counts);
    assert forall|i: int| 0 <= i < tail.len() - 1 implies !#[trigger] cliff_at(tail, i) by {
        assert(tail[i] == c && tail[i + 1] == c);
    }
    let recent = counts.subrange(n - 3, n);
    let prior = counts.subrange(0, n - 3);
    lemma_constant_totals(recent, c);
    lemma_constant_totals(prior, c);
    lemma_constant_totals(counts, c);
    assert(!(2 * prior.len() * total(recent) < 3 * total(prior))) by (nonlinear_arith)
        requires
            total(recent) == 3 * c,
            total(prior) == prior.len() * c,
    ;
    assert(!(25 * n * total_squares(counts) > 41 * total(counts) * total(counts))) by (nonlinear_arith)
        requires
            total(counts) == n * c,
            total_squares(counts) == n * (c * c),
            n >= 6,
    ;
}


/// A revert, hotfix or rollback commit (not a merge) of the last 365 days.
pub open spec fn firefight_hit(m: CommitMeta, now: i64) -> bool {
    !m.is_merge && m.is_firefight && m.time >= now - 365 * DAY
}

/// The positions of the firefighting commits among the first `n`.
pub open spec fn firefight_hits(metas: Seq<CommitMeta>, now: i64, n: int) -> Seq<int>
    decreases n,
{
    if n <= 0 {
        Seq::empty()
    } else if firefight_hit(metas[n - 1], now) {
        firefight_hits(metas, now, n - 1).push(n - 1)
    } else {
        firefight_hits(metas, now, n - 1)
    }
}

pub struct Firefight {
    pub count_last_year: usize,
    /// Summaries of the first (newest) five hits.
    pub recent: Vec<String>,
}

proof fn lemma_hits_bounded(metas: Seq<CommitMeta>, now: i64, n: int)
    requires
        0 <= n <= metas.len(),
    ensures
        firefight_hits(metas, now, n).len() <= n,
        forall|j: int| 0 <= j < firefight_hits(metas, now, n).len() ==> 0 <= #[trigger] firefight_hits(metas, now, n)[j] < n,
    decreases n,
{
    if n > 0 {
        lemma_hits_bounded(metas, now, n - 1);
    }
}

/// Revert/hotfix/rollback commits of the last year.
fn firefight_of(metas: &Vec<CommitMeta>, now: i64) -> (f: Firefight)
    ensures
        f.count_last_year == firefight_hits(metas@, now, metas@.len() as int).len(),
        views(f.recent@) == {
            let hits = firefight_hits(metas@, now, metas@.len() as int);
            hits.take(if hits.len() < 5 { hits.len() as int } else { 5 }).map_values(|i: int| metas@[i].summary@)
        },
{
    let mut count: usize = 0;
    let mut recent: Vec<String> = Vec::new();
    let mut m: usize = 0;
    while m < metas.len()
        invariant
            m <= metas@.len(),
            count == firefight_hits(metas@, now, m as int).len(),
            views(recent@) == {
                let hits = firefight_hits(metas@, now, m as int);
                hits.take(if hits.len() < 5 { hits.len() as int } else { 5 }).map_values(|i: int| metas@[i].summary@)
            },
        decreases metas@.len() - m,
    {
        proof {
            lemma_hits_bounded(metas@, now, m as int);
        }
        let meta = &metas[m];
        let hit = !meta.is_merge && meta.is_firefight && (meta.time as i128) >= (now as i128) - 365 * 86400;
        let ghost h0 = firefight_hits(metas@, now, m as int);
        if hit {
            let ghost before = recent@;
            if count < 5 {
                recent.push(meta.summary.clone());
            }
            count = count + 1;
            proof {
                let h1 = firefight_hits(metas@, now, m + 1);
                assert(h1 == h0.push(m as int));
                if h0.len() < 5 {
                    assert(views(recent@) =~= views(before).push(metas@[m as int].summary@));
                    assert(h1.take(h1.len() as int) =~= h1);
                    assert(h0.take(h0.len() as int) =~= h0);
                    assert(h1.map_values(|i: int| metas@[i].summary@) =~= h0.map_values(|i: int| metas@[i].summary@).push(metas@[m as int].summary@));
                } else {
                    assert(h1.take(5) =~= h0.take(5));
                }
            }
        }
        m = m + 1;
    }
    Firefight { count_last_year: count, recent }
}

/// The commits that count for ownership when the path set is not narrowed:
/// all non-merge commits.
pub open spec fn non_merge(metas: Seq<CommitMeta>, m: int) -> bool {
    !metas[m].is_merge
}

/// Commit `m` touched a path the filter admits.
pub open spec fn touches_admitted(h: History, filter: PathFilter, m: int) -> bool {
    exists|k: int| 0 <= k < h.changes@.len() && (#[trigger] h.changes@[k]).meta_idx == m && filter.admits(change_path(h, k))
}

/// Whether the user narrowed the path set.
pub open spec fn narrowed(filter: PathFilter) -> bool {
    filter.scope_prefix() is Some || filter.exclusions().len() > 0
}

/// The commits that count for ownership: with a narrowed path set, the
/// window commits touching an admitted path; otherwise all non-merge commits.
pub open spec fn ownership_mask(h: History, filter: PathFilter) -> Seq<bool> {
    if narrowed(filter) {
        Seq::new(h.metas@.len(), |m: int| touches_admitted(h, filter, m))
    } else {
        Seq::new(h.metas@.len(), |m: int| non_merge(h.metas@, m))
    }
}

/// The earliest `last_active` reported: 0 over the full history (an
/// author's counter starts there), unbounded over a narrowed path set.
pub open spec fn ownership_floor(filter: PathFilter) -> i64 {
    if narrowed(filter) {
        i64::MIN
    } else {
        0
    }
}

fn non_merge_mask(metas: &Vec<CommitMeta>) -> (mask: Vec<bool>)
    ensures
        mask@.len() == metas@.len(),
        forall|m: int| 0 <= m < metas@.len() ==> mask@[m] == non_merge(metas@, m),
{
    let mut mask: Vec<bool> = Vec::new();
    let mut m: usize = 0;
    while m < metas.len()
        invariant
            m <= metas@.len(),
            mask@.len() == m,
            forall|j: int| 0 <= j < m ==> mask@[j] == non_merge(metas@, j),
        decreases metas@.len() - m,
    {
        mask.push(!metas[m].is_merge);
        m = m + 1;
    }
    mask
}

fn touched_mask(h: &History, filter: &PathFilter) -> (mask: Vec<bool>)
    requires
        history_wf(*h),
    ensures
        mask@.len() == h.metas@.len(),
        forall|m: int| 0 <= m < h.metas@.len() ==> mask@[m] == touches_admitted(*h, *filter, m),
{
    let mut mask: Vec<bool> = Vec::new();
    let mut m: usize = 0;
    while m < h.metas.len()
        invariant
            m <= h.metas@.len(),
            mask@.len() == m,
            forall|j: int| 0 <= j < m ==> !mask@[j],
        decreases h.metas@.len() - m,
    {
        mask.push(false);
        m = m + 1;
    }
    let mut k: usize = 0;
    while k < h.changes.len()
        invariant
            history_wf(*h),
            k <= h.changes@.len(),
            mask@.len() == h.metas@.len(),
            forall|m: int| 0 <= m < h.metas@.len() ==> mask@[m] == exists|j: int|
                0 <= j < k && (#[trigger] h.changes@[j]).meta_idx == m && filter.admits(change_path(*h, j)),
        decreases h.changes@.len() - k,
    {
        let c = &h.changes[k];
        if filter.included(c.path.as_str()) {
            mask.set(c.meta_idx, true);
        }
        proof {
            assert forall|m: int| 0 <= m < h.metas@.len() implies mask@[m] == exists|j: int|
                0 <= j < k + 1 && (#[trigger] h.changes@[j]).meta_idx == m && filter.admits(change_path(*h, j)) by {
                if exists|j: int| 0 <= j < k + 1 && (#[trigger] h.changes@[j]).meta_idx == m && filter.admits(change_path(*h, j)) {
                    let j = choose|j: int| 0 <= j < k + 1 && (#[trigger] h.changes@[j]).meta_idx == m && filter.admits(change_path(*h, j));
                    if j < k {
                    }
                }
            }
        }
        k = k + 1;
    }
    mask
}

/// File `f` is a hotspot candidate: changed at least twice and present at
/// HEAD with at least one line, which is when its churn×size score is
/// positive.
pub open spec fn hot(f: FileMetrics) -> bool {
    f.churn >= 2 && (f.loc matches Some(l) && l >= 1)
}

/// The positions of the hotspot candidates, in table order.
pub open spec fn hotspot_positions(files: Seq<FileMetrics>, n: int) -> Seq<int>
    decreases n,
{
    if n <= 0 {
        Seq::empty()
    } else if hot(files[n - 1]) {
        hotspot_positions(files, n - 1).push(n - 1)
    } else {
        hotspot_positions(files, n - 1)
    }
}

/// Indices as integers.
pub open spec fn ints(v: Seq<usize>) -> Seq<int> {
    v.map_values(|i: usize| i as int)
}

fn hotspots_of(files: &Vec<FileMetrics>) -> (hs: Vec<usize>)
    ensures
        ints(hs@) == hotspot_positions(files@, files@.len() as int),
{
    let mut hs: Vec<usize> = Vec::new();
    let mut i: usize = 0;
    while i < files.len()
        invariant
            i <= files@.len(),
            ints(hs@) == hotspot_positions(files@, i as int),
        decreases files@.len() - i,
    {
        let f = &files[i];
        let is_hot = f.churn >= 2 && match f.loc {
            Some(l) => l >= 1,
            None => false,
        };
        if is_hot {
            let ghost before = hs@;
            hs.push(i);
            assert(ints(hs@) =~= ints(before).push(i as int));
        }
        i = i + 1;
    }
    hs
}

/// The hotspot order: a higher score key first, then table order.
pub open spec fn hot_before(keys: Seq<u64>, a: int, b: int) -> bool {
    keys[a] > keys[b] || (keys[a] == keys[b] && a < b)
}

/// `ps` lists the positions of the hotspot candidates of `files`, each
/// once, highest score key first and ties in table order.
pub open spec fn hotspot_ranking(ps: Seq<usize>, files: Seq<FileMetrics>, keys: Seq<u64>) -> bool {
    &&& forall|i: int| 0 <= i < ps.len() ==> (#[trigger] ps[i]) < files.len()
    &&& forall|i: int| 0 <= i < files.len() ==> (hot(files[i]) <==> ps.contains(i as usize))
    &&& forall|a: int, b: int| 0 <= a < b < ps.len() ==> hot_before(keys, #[trigger] ps[a] as int, #[trigger] ps[b] as int)
}

/// The hotspot positions ranked by their keys (there is exactly one such
/// list, see `lemma_hotspot_ranking_unique`).
pub open spec fn ranked_hotspots(files: Seq<FileMetrics>, keys: Seq<u64>) -> Seq<usize> {
    choose|ps: Seq<usize>| hotspot_ranking(ps, files, keys)
}

proof fn lemma_hot_sorted_unique(keys: Seq<u64>, p: Seq<usize>, q: Seq<usize>)
    requires
        forall|a: int, b: int| 0 <= a < b < p.len() ==> hot_before(keys, #[trigger] p[a] as int, #[trigger] p[b] as int),
        forall|a: int, b: int| 0 <= a < b < q.len() ==> hot_before(keys, #[trigger] q[a] as int, #[trigger] q[b] as int),
        forall|x: usize| p.contains(x) <==> q.contains(x),
    ensures
        p == q,
    decreases p.len(),
{
    if p.len() == 0 {
        if q.len() > 0 {
            assert(q.contains(q[0]));
        }
        assert(p =~= q);
    } else {
        assert(p.contains(p[0]));
        assert(q.len() > 0);
        assert(q.contains(q[0]));
        let j = choose|j: int| 0 <= j < p.len() && p[j] == q[0];
        let k = choose|k: int| 0 <= k < q.len() && q[k] == p[0];
        if j > 0 && k > 0 {
            assert(hot_before(keys, p[0] as int, p[j] as int));
            assert(hot_before(keys, q[0] as int, q[k] as int));
        }
        assert(p[0] == q[0]);
        let pt = p.drop_first();
        let qt = q.drop_first();
        assert forall|x: usize| pt.contains(x) <==> qt.contains(x) by {
            if pt.contains(x) {
                let w = choose|w: int| 0 <= w < pt.len() && pt[w] == x;
                assert(p[w + 1] == x);
                assert(hot_before(keys, p[0] as int, p[w + 1] as int));
                assert(p.contains(x));
                let v = choose|v: int| 0 <= v < q.len() && q[v] == x;
                assert(v != 0);
                assert(qt[v - 1] == x);
            }
            if qt.contains(x) {
                let w = choose|w: int| 0 <= w < qt.len() && qt[w] == x;
                assert(q[w + 1] == x);
                assert(hot_before(keys, q[0] as int, q[w + 1] as int));
                assert(q.contains(x));
                let v = choose|v: int| 0 <= v < p.len() && p[v] == x;
                assert(v != 0);
                assert(pt[v - 1] == x);
            }
        }
        assert forall|a: int, b: int| 0 <= a < b < pt.len() implies hot_before(keys, #[trigger] pt[a] as int, #[trigger] pt[b] as int) by {
            assert(pt[a] == p[a + 1] && pt[b] == p[b + 1]);
        }
        assert forall|a: int, b: int| 0 <= a < b < qt.len() implies hot_before(keys, #[trigger] qt[a] as int, #[trigger] qt[b] as int) by {
            assert(qt[a] == q[a + 1] && qt[b] == q[b + 1]);
        }
        lemma_hot_sorted_unique(keys, pt, qt);
        assert(p =~= q) by {
            assert forall|i: int| 0 <= i < p.len() implies p[i] == q[i] by {
                if i > 0 {
                    assert(p[i] == pt[i - 1]);
                    assert(q[i] == qt[i - 1]);
                }
            }
        }
    }
}

/// The hotspot ranking is fixed by the files and keys: two lists that meet
/// `hotspot_ranking` are equal.
pub proof fn lemma_hotspot_ranking_unique(files: Seq<FileMetrics>, keys: Seq<u64>, p: Seq<usize>, q: Seq<usize>)
    requires
        hotspot_ranking(p, files, keys),
        hotspot_ranking(q, files, keys),
    ensures
        p == q,
{
    assert forall|x: usize| p.contains(x) <==> q.contains(x) by {
        if p.contains(x) {
            let w = choose|w: int| 0 <= w < p.len() && p[w] == x;
            assert(p[w] < files.len());
            assert(p.contains((x as int) as usize));
            assert(hot(files[x as int]));
            assert(q.contains((x as int) as usize));
        }
        if q.contains(x) {
            let w = choose|w: int| 0 <= w < q.len() && q[w] == x;
            assert(q[w] < files.len());
            assert(q.contains((x as int) as usize));
            assert(hot(files[x as int]));
            assert(p.contains((x as int) as usize));
        }
    }
    lemma_hot_sorted_unique(keys, p, q);
}

proof fn lemma_hotspot_positions_members(files: Seq<FileMetrics>, n: int, i: int)
    requires
        0 <= n <= files.len(),
    ensures
        hotspot_positions(files, n).contains(i) <==> (0 <= i < n && hot(files[i])),
    decreases n,
{
    if n > 0 {
        lemma_hotspot_positions_members(files, n - 1, i);
        let prev = hotspot_positions(files, n - 1);
        if hot(files[n - 1]) {
            let cur = prev.push(n - 1);
            if cur.contains(i) {
                let w = choose|w: int| 0 <= w < cur.len() && cur[w] == i;
                if w < prev.len() {
                    assert(prev[w] == i);
                }
            }
            if prev.contains(i) {
                let w = choose|w: int| 0 <= w < prev.len() && prev[w] == i;
                assert(cur[w] == i);
            }
            if i == n - 1 {
                assert(cur[prev.len() as int] == i);
            }
        }
    }
}

/// Law: ranking only reorders the hotspots: a report's hotspots after
/// `rank_hotspots` are the positions it held before, whatever the keys.
pub proof fn law_ranking_reorders_hotspots(r: Report, keys: Seq<u64>, ranked: Seq<usize>, x: usize)
    requires
        ints(r.hotspots@) == hotspot_positions(r.files@, r.files@.len() as int),
        hotspot_ranking(ranked, r.files@, keys),
    ensures
        ranked.contains(x) <==> r.hotspots@.contains(x),
{
    lemma_hotspot_positions_members(r.files@, r.files@.len() as int, x as int);
    let hs = r.hotspots@;
    if hs.contains(x) {
        let w = choose|w: int| 0 <= w < hs.len() && hs[w] == x;
        assert(ints(hs)[w] == x as int);
        assert(ranked.contains((x as int) as usize));
    }
    if ranked.contains(x) {
        let w = choose|w: int| 0 <= w < ranked.len() && ranked[w] == x;
        assert(ranked[w] < r.files@.len());
        assert(ranked.contains((x as int) as usize));
        assert(hot(r.files@[x as int]));
        assert(hotspot_positions(r.files@, r.files@.len() as int).contains(x as int));
        let v = choose|v: int| 0 <= v < ints(hs).len() && ints(hs)[v] == x as int;
        assert(hs[v] == x);
    }
}

/// The hotspot positions, highest key first, ties in table order.
fn hotspot_order(files: &Vec<FileMetrics>, keys: &Vec<u64>) -> (ps: Vec<usize>)
    requires
        keys@.len() == files@.len(),
    ensures
        hotspot_ranking(ps@, files@, keys@),
{
    let mut ps: Vec<usize> = Vec::new();
    let mut i: usize = 0;
    while i < files.len()
        invariant
            i <= files@.len(),
            keys@.len() == files@.len(),
            forall|j: int| 0 <= j < ps@.len() ==> (#[trigger] ps@[j]) < i,
            forall|j: int| 0 <= j < i ==> (hot(files@[j]) <==> ps@.contains(j as usize)),
            forall|a: int, b: int| 0 <= a < b < ps@.len() ==> hot_before(keys@, #[trigger] ps@[a] as int, #[trigger] ps@[b] as int),
        decreases files@.len() - i,
    {
        let f = &files[i];
        let is_hot = f.churn >= 2 && match f.loc {
            Some(l) => l >= 1,
            None => false,
        };
        if is_hot {
            let c = keys[i];
            let mut pos: usize = 0;
            while pos < ps.len() && keys[ps[pos]] >= c
                invariant
                    pos <= ps@.len(),
                    keys@.len() == files@.len(),
                    forall|j: int| 0 <= j < ps@.len() ==> (#[trigger] ps@[j]) < i,
                    i < files@.len(),
                    c == keys@[i as int],
                    forall|j: int| 0 <= j < pos ==> keys@[#[trigger] ps@[j] as int] >= c,
                decreases ps@.len() - pos,
            {
                pos = pos + 1;
            }
            let ghost old_ps = ps@;
            proof {
                if pos < old_ps.len() {
                    assert(keys@[old_ps[pos as int] as int] < c);
                }
            }
            ps.insert(pos, i);
            proof {
                let np = ps@;
                assert(np =~= old_ps.insert(pos as int, i));
                assert forall|a: int, b: int| 0 <= a < b < np.len() implies hot_before(keys@, #[trigger] np[a] as int, #[trigger] np[b] as int) by {
                    if b < pos {
                    } else if a < pos && b == pos {
                        assert(keys@[old_ps[a] as int] >= c);
                    } else if a < pos && b > pos {
                        assert(np[a] == old_ps[a]);
                        assert(np[b] == old_ps[b - 1]);
                    } else if a == pos {
                        assert(np[b] == old_ps[b - 1]);
                        if b - 1 > pos {
                            assert(hot_before(keys@, old_ps[pos as int] as int, old_ps[b - 1] as int));
                        }
                    } else {
                        assert(np[a] == old_ps[a - 1]);
                        assert(np[b] == old_ps[b - 1]);
                    }
                }
                assert forall|j: int| 0 <= j < i + 1 implies (hot(files@[j]) <==> np.contains(j as usize)) by {
                    if j == i {
                        assert(np[pos as int] == i);
                    } else {
                        if old_ps.contains(j as usize) {
                            let w = choose|w: int| 0 <= w < old_ps.len() && old_ps[w] == j as usize;
                            if w < pos {
                                assert(np[w] == j as usize);
                            } else {
                                assert(np[w + 1] == j as usize);
                            }
                        }
                        if np.contains(j as usize) {
                            let w = choose|w: int| 0 <= w < np.len() && np[w] == j as usize;
                            if w < pos {
                                assert(old_ps[w] == j as usize);
                            } else if w > pos {
                                assert(old_ps[w - 1] == j as usize);
                            }
                        }
                    }
                }
            }
        } else {
            proof {
                assert(!hot(files@[i as int]));
                assert(!ps@.contains(i as usize));
            }
        }
        i = i + 1;
    }
    ps
}

/// The order of the bug-cluster table: more bug fixes first, then the
/// churn-table order.
pub open spec fn cluster_before(files: Seq<FileMetrics>, a: int, b: int) -> bool {
    files[a].bug_fixes > files[b].bug_fixes || (files[a].bug_fixes == files[b].bug_fixes && a < b)
}

/// `clusters` lists the files with bug fixes, in the bug-cluster order.
pub open spec fn cluster_table(clusters: Seq<usize>, files: Seq<FileMetrics>) -> bool {
    &&& forall|i: int| 0 <= i < clusters.len() ==> (#[trigger] clusters[i]) < files.len()
    &&& forall|i: int| 0 <= i < files.len() ==> (files[i].bug_fixes > 0 <==> clusters.contains(i as usize))
    &&& forall|a: int, b: int| 0 <= a < b < clusters.len() ==> cluster_before(files, #[trigger] clusters[a] as int, #[trigger] clusters[b] as int)
}

fn bug_clusters_of(files: &Vec<FileMetrics>) -> (cs: Vec<usize>)
    ensures
        cluster_table(cs@, files@),
{
    let mut cs: Vec<usize> = Vec::new();
    let mut i: usize = 0;
    while i < files.len()
        invariant
            i <= files@.len(),
            forall|j: int| 0 <= j < cs@.len() ==> (#[trigger] cs@[j]) < i,
            forall|j: int| 0 <= j < i ==> (files@[j].bug_fixes > 0 <==> cs@.contains(j as usize)),
            forall|a: int, b: int| 0 <= a < b < cs@.len() ==> cluster_before(files@, #[trigger] cs@[a] as int, #[trigger] cs@[b] as int),
        decreases files@.len() - i,
    {
        let b = files[i].bug_fixes;
        if b > 0 {
            let mut pos: usize = 0;
            while pos < cs.len() && files[cs[pos]].bug_fixes >= b
                invariant
                    pos <= cs@.len(),
                    forall|j: int| 0 <= j < cs@.len() ==> (#[trigger] cs@[j]) < i,
                    i < files@.len(),
                    b == files@[i as int].bug_fixes,
                    forall|j: int| 0 <= j < pos ==> files@[#[trigger] cs@[j] as int].bug_fixes >= b,
                decreases cs@.len() - pos,
            {
                pos = pos + 1;
            }
            let ghost old_cs = cs@;
            proof {
                if pos < old_cs.len() {
                    assert(files@[old_cs[pos as int] as int].bug_fixes < b);
                }
            }
            cs.insert(pos, i);
            proof {
                let nc = cs@;
                assert(nc =~= old_cs.insert(pos as int, i));
                assert forall|a: int, c: int| 0 <= a < c < nc.len() implies cluster_before(files@, #[trigger] nc[a] as int, #[trigger] nc[c] as int) by {
                    if c < pos {
                    } else if a < pos && c == pos {
                        assert(files@[old_cs[a] as int].bug_fixes >= b);
                    } else if a < pos && c > pos {
                        assert(nc[a] == old_cs[a]);
                        assert(nc[c] == old_cs[c - 1]);
                    } else if a == pos {
                        assert(nc[c] == old_cs[c - 1]);
                        if c - 1 > pos {
                            assert(cluster_before(files@, old_cs[pos as int] as int, old_cs[c - 1] as int));
                        }
                    } else {
                        assert(nc[a] == old_cs[a - 1]);
                        assert(nc[c] == old_cs[c - 1]);
                    }
                }
                assert forall|j: int| 0 <= j < i + 1 implies (files@[j].bug_fixes > 0 <==> nc.contains(j as usize)) by {
                    if j == i {
                        assert(nc[pos as int] == i);
                    } else {
                        if old_cs.contains(j as usize) {
                            let w = choose|w: int| 0 <= w < old_cs.len() && old_cs[w] == j as usize;
                            if w < pos {
                                assert(nc[w] == j as usize);
                            } else {
                                assert(nc[w + 1] == j as usize);
                            }
                        }
                        if nc.contains(j as usize) {
                            let w = choose|w: int| 0 <= w < nc.len() && nc[w] == j as usize;
                            if w < pos {
                                assert(old_cs[w] == j as usize);
                            } else if w > pos {
                                assert(old_cs[w - 1] == j as usize);
                            }
                        }
                    }
                }
            }
        } else {
            proof {
                assert(!cs@.contains(i as usize));
            }
        }
        i = i + 1;
    }
    cs
}


/// Sum over `keys` of the number of commits among the first `n` in each.
pub open spec fn keyed_total(metas: Seq<CommitMeta>, keys: Seq<Seq<char>>, n: int) -> nat
    decreases keys.len(),
{
    if keys.len() == 0 {
        0
    } else {
        keyed_total(metas, keys.drop_last(), n) + month_count(metas, keys.last(), n)
    }
}

/// Number of positions of `keys` holding `x`.
pub open spec fn occurrences(keys: Seq<Seq<char>>, x: Option<Seq<char>>) -> nat
    decreases keys.len(),
{
    if keys.len() == 0 {
        0
    } else {
        occurrences(keys.drop_last(), x) + if x == Some(keys.last()) {
            1nat
        } else {
            0nat
        }
    }
}

proof fn lemma_keyed_total_step(metas: Seq<CommitMeta>, keys: Seq<Seq<char>>, n: int)
    requires
        1 <= n <= metas.len(),
    ensures
        keyed_total(metas, keys, n) == keyed_total(metas, keys, n - 1) + occurrences(keys, month_of(metas[n - 1].time)),
    decreases keys.len(),
{
    if keys.len() > 0 {
        lemma_keyed_total_step(metas, keys.drop_last(), n);
    }
}

proof fn lemma_distinct_occurrences(keys: Seq<Seq<char>>, x: Option<Seq<char>>)
    requires
        forall|i: int, j: int| 0 <= i < j < keys.len() ==> keys[i] != keys[j],
    ensures
        occurrences(keys, x) <= 1,
        x matches Some(k) && !keys.contains(k) ==> occurrences(keys, x) == 0,
    decreases keys.len(),
{
    if keys.len() > 0 {
        let p = keys.drop_last();
        lemma_distinct_occurrences(p, x);
        if x == Some(keys.last()) {
            assert(!p.contains(keys.last())) by {
                if p.contains(keys.last()) {
                    let i = choose|i: int| 0 <= i < p.len() && p[i] == keys.last();
                    assert(keys[i] == keys[keys.len() - 1]);
                }
            }
        }
        if let Some(k) = x {
            if !keys.contains(k) {
                assert(!p.contains(k)) by {
                    if p.contains(k) {
                        let i = choose|i: int| 0 <= i < p.len() && p[i] == k;
                        assert(keys[i] == k);
                    }
                }
                assert(keys.last() != k) by {
                    assert(keys[keys.len() - 1] == keys.last());
                }
            }
        }
    }
}

proof fn lemma_keyed_total_zero(metas: Seq<CommitMeta>, keys: Seq<Seq<char>>)
    ensures
        keyed_total(metas, keys, 0) == 0,
    decreases keys.len(),
{
    if keys.len() > 0 {
        lemma_keyed_total_zero(metas, keys.drop_last());
    }
}

proof fn lemma_month_count_positive(metas: Seq<CommitMeta>, key: Seq<char>, n: int, m: int)
    requires
        0 <= m < n,
        month_of(metas[m].time) == Some(key),
    ensures
        month_count(metas, key, n) >= 1,
    decreases n,
{
    if m < n - 1 {
        lemma_month_count_positive(metas, key, n - 1, m);
    }
}

proof fn lemma_table_total(months: Seq<(String, u32)>, metas: Seq<CommitMeta>, k: int)
    requires
        months_table(months, metas),
        0 <= k <= months.len(),
    ensures
        total(month_counts(months.take(k))) == keyed_total(metas, month_keys(months.take(k)), metas.len() as int),
        total(month_counts(months.take(k))) >= k,
    decreases k,
{
    if k > 0 {
        lemma_table_total(months, metas, k - 1);
        let t = months.take(k);
        assert(month_counts(t).drop_last() =~= month_counts(months.take(k - 1)));
        assert(month_keys(t).drop_last() =~= month_keys(months.take(k - 1)));
        assert(month_counts(t).last() == months[k - 1].1);
        assert(month_keys(t).last() == months[k - 1].0@);
        let key = months[k - 1].0@;
        assert(month_keys(months)[k - 1] == key);
        assert(month_keys(months).contains(key));
        let m = choose|m: int| 0 <= m < metas.len() && month_of((#[trigger] metas[m]).time) == Some(key);
        lemma_month_count_positive(metas, key, metas.len() as int, m);
    }
}


#[derive(PartialEq, Eq, Structural, Clone, Copy, Debug)]
pub enum Risk {
    Critical,
    High,
    Watch,
}

impl Risk {
    pub fn label(self) -> (l: &'static str)
        ensures
            l@ == match self {
                Risk::Critical => "CRITICAL"@,
                Risk::High => "HIGH"@,
                Risk::Watch => "WATCH"@,
            },
    {
        match self {
            Risk::Critical => "CRITICAL",
            Risk::High => "HIGH",
            Risk::Watch => "WATCH",
        }
    }
}

/// The risk of a file: critical with a high hotspot score and repeated bug
/// fixes, high with either, watch otherwise.
pub open spec fn risk_of(high_score: bool, bug_fixes: u32) -> Risk {
    if high_score && bug_fixes >= 2 {
        Risk::Critical
    } else if high_score || bug_fixes >= 2 {
        Risk::High
    } else {
        Risk::Watch
    }
}

/// The rank of a risk: watch < high < critical.
pub open spec fn risk_rank(r: Risk) -> int {
    match r {
        Risk::Watch => 0,
        Risk::High => 1,
        Risk::Critical => 2,
    }
}

/// Law: a file is critical exactly when its hotspot score is high (at least
/// 50) and it had at least two bug fixes, and on the watch list exactly when
/// neither holds; without a high score it is never critical.
pub proof fn law_risk_levels(high_score: bool, bug_fixes: u32)
    ensures
        (risk_of(high_score, bug_fixes) == Risk::Critical) <==> (high_score && bug_fixes >= 2),
        (risk_of(high_score, bug_fixes) == Risk::Watch) <==> (!high_score && bug_fixes < 2),
        !high_score ==> risk_of(high_score, bug_fixes) != Risk::Critical,
{
}

/// Law: risk never falls when the score turns high or bug fixes grow.
pub proof fn law_risk_monotone(h1: bool, b1: u32, h2: bool, b2: u32)
    requires
        h1 ==> h2,
        b1 <= b2,
    ensures
        risk_rank(risk_of(h1, b1)) <= risk_rank(risk_of(h2, b2)),
{
}

impl FileMetrics {
    /// The file's risk; `high_score` tells whether its hotspot score is at
    /// least 50 (out of 100).
    pub fn risk(&self, high_score: bool) -> (r: Risk)
        ensures
            r == risk_of(high_score, self.bug_fixes),
    {
        if high_score && self.bug_fixes >= 2 {
            Risk::Critical
        } else if high_score || self.bug_fixes >= 2 {
            Risk::High
        } else {
            Risk::Watch
        }
    }
}

/// The description of a trend.
pub open spec fn trend_text(t: Trend) -> Seq<char> {
    match t {
        Trend::Steady => "steady rhythm — healthy"@,
        Trend::Declining => "declining over recent months — team may be losing momentum"@,
        Trend::Cliff => "sharp single-month drop — did someone leave?"@,
        Trend::Spiky => "spikes followed by quiet months — work batched into releases"@,
        Trend::Sparse => "not enough history for a trend"@,
    }
}

impl Trend {
    pub fn describe(self) -> (d: &'static str)
        ensures
            d@ == trend_text(self),
    {
        match self {
            Trend::Steady => "steady rhythm — healthy",
            Trend::Declining => "declining over recent months — team may be losing momentum",
            Trend::Cliff => "sharp single-month drop — did someone leave?",
            Trend::Spiky => "spikes followed by quiet months — work batched into releases",
            Trend::Sparse => "not enough history for a trend",
        }
    }
}

pub struct Velocity {
    /// Commits per calendar month over the entire history, ordered by month.
    pub months: Vec<(String, u32)>,
    pub trend: Trend,
}

pub struct Report {
    /// All files in the window passing filters, sorted by churn desc.
    pub files: Vec<FileMetrics>,
    /// Indices into `files` of the files with a positive hotspot score
    /// (score > 0 only): in `files` order as `compute` leaves them, sorted by
    /// hotspot score, highest first, once `rank_hotspots` has been given the
    /// scores (the score is floating point and is computed by the caller).
    pub hotspots: Vec<usize>,
    /// Indices into `files` with bug fixes, sorted by bug-fix count desc.
    pub bug_clusters: Vec<usize>,
    pub authors: Vec<AuthorStats>,
    /// True when ownership was computed from the included paths in the
    /// analysis window instead of the full history.
    pub ownership_scoped: bool,
    /// The number of commits ownership shares are taken of (at least 1).
    pub ownership_total: u32,
    pub total_commits: usize,
    pub active_authors_last_year: usize,
    pub velocity: Velocity,
    pub firefight: Firefight,
    pub now: i64,
    /// The highest churn of a file (1 when there are none).
    pub max_churn: u32,
    /// The highest line count of a file present at HEAD (1 when none is).
    pub max_loc: usize,
}

/// The author was active within the last 365 days.
pub open spec fn active_last_year(a: AuthorStats, now: i64) -> bool {
    now - a.last_active <= 365 * DAY
}

/// Number of authors among the first `n` active within the last year.
pub open spec fn active_count(authors: Seq<AuthorStats>, now: i64, n: int) -> nat
    decreases n,
{
    if n <= 0 {
        0
    } else {
        active_count(authors, now, n - 1) + if active_last_year(authors[n - 1], now) {
            1nat
        } else {
            0nat
        }
    }
}

/// The largest line count among the first `n` files (0 when none has one).
pub open spec fn largest_loc(files: Seq<FileMetrics>, n: int) -> nat
    decreases n,
{
    if n <= 0 {
        0
    } else {
        let rest = largest_loc(files, n - 1);
        match files[n - 1].loc {
            Some(l) => if l > rest {
                l as nat
            } else {
                rest
            },
            None => rest,
        }
    }
}

/// Some file among the first `n` has a line count.
pub open spec fn some_loc(files: Seq<FileMetrics>, n: int) -> bool {
    exists|i: int| 0 <= i < n && (#[trigger] files[i]).loc is Some
}

/// The report of a history, a line-count table, a path filter and the
/// current time.
pub open spec fn report_of(r: Report, h: History, loc: Seq<(String, usize)>, filter: PathFilter, now: i64) -> bool {
    let files = r.files@;
    let mask = ownership_mask(h, filter);
    let hits = firefight_hits(h.metas@, now, h.metas@.len() as int);
    &&& churn_table(files, h, loc, filter)
    &&& ints(r.hotspots@) == hotspot_positions(files, files.len() as int)
    &&& cluster_table(r.bug_clusters@, files)
    &&& r.ownership_scoped == narrowed(filter)
    &&& ownership_table(r.authors@, h.metas@, mask, ownership_floor(filter))
    &&& r.ownership_total == if participating(mask, h.metas@.len() as int) == 0 {
        1
    } else {
        participating(mask, h.metas@.len() as int)
    }
    &&& r.total_commits == h.metas@.len()
    &&& r.active_authors_last_year == active_count(r.authors@, now, r.authors@.len() as int)
    &&& months_table(r.velocity.months@, h.metas@)
    &&& r.velocity.trend == trend_of(without_last(month_counts(r.velocity.months@)))
    &&& r.firefight.count_last_year == hits.len()
    &&& views(r.firefight.recent@) == hits.take(if hits.len() < 5 { hits.len() as int } else { 5 }).map_values(
        |i: int| h.metas@[i].summary@,
    )
    &&& r.now == now
    &&& r.max_churn == if files.len() == 0 {
        1
    } else {
        files[0].churn
    }
    &&& r.max_loc == if some_loc(files, files.len() as int) {
        largest_loc(files, files.len() as int)
    } else {
        1
    }
}

fn largest_loc_of(files: &Vec<FileMetrics>) -> (m: usize)
    ensures
        m == if some_loc(files@, files@.len() as int) {
            largest_loc(files@, files@.len() as int)
        } else {
            1
        },
{
    let mut best: usize = 0;
    let mut any = false;
    let mut i: usize = 0;
    while i < files.len()
        invariant
            i <= files@.len(),
            best == largest_loc(files@, i as int),
            any == some_loc(files@, i as int),
        decreases files@.len() - i,
    {
        match files[i].loc {
            Some(l) => {
                if l > best {
                    best = l;
                }
                any = true;
            },
            None => {},
        }
        proof {
            if any {
                if files@[i as int].loc is Some {
                    assert(some_loc(files@, i + 1));
                } else {
                    let w = choose|w: int| 0 <= w < i && (#[trigger] files@[w]).loc is Some;
                    assert(some_loc(files@, i + 1));
                }
            } else {
                assert(!some_loc(files@, i + 1));
            }
        }
        i = i + 1;
    }
    if any {
        best
    } else {
        1
    }
}

fn active_authors(authors: &Vec<AuthorStats>, now: i64) -> (n: usize)
    ensures
        n == active_count(authors@, now, authors@.len() as int),
{
    let mut n: usize = 0;
    let mut i: usize = 0;
    while i < authors.len()
        invariant
            i <= authors@.len(),
            n == active_count(authors@, now, i as int),
            n <= i,
        decreases authors@.len() - i,
    {
        if (now as i128) - (authors[i].last_active as i128) <= 365 * 86400 {
            n = n + 1;
        }
        i = i + 1;
    }
    n
}

impl Report {
    /// Aggregates a history into a report.
    pub fn compute(history: &History, loc: &Vec<(String, usize)>, filter: &PathFilter, now: i64) -> (r: Self)
        requires
            history_wf(*history),
        ensures
            report_of(r, *history, loc@, *filter, now),
    {
        let files = churn_table_of(history, loc, filter);
        let hotspots = hotspots_of(&files);
        let bug_clusters = bug_clusters_of(&files);
        let ownership_scoped = filter.is_restrictive();
        let (mask, floor) = if ownership_scoped {
            (touched_mask(history, filter), i64::MIN)
        } else {
            (non_merge_mask(&history.metas), 0i64)
        };
        proof {
            assert(mask@ =~= ownership_mask(*history, *filter));
        }
        let authors = ownership_of(&history.metas, &mask, floor);
        let participants = count_participating(&mask);
        let ownership_total = if participants == 0 { 1 } else { participants };
        let active_authors_last_year = active_authors(&authors, now);
        let months = months_of(&history.metas);
        let trend = classify_trend(&months);
        let firefight = firefight_of(&history.metas, now);
        let max_churn = if files.len() == 0 { 1 } else { files[0].churn };
        let max_loc = largest_loc_of(&files);
        Report {
            files,
            hotspots,
            bug_clusters,
            authors,
            ownership_scoped,
            ownership_total,
            total_commits: history.metas.len(),
            active_authors_last_year,
            velocity: Velocity { months, trend },
            firefight,
            now,
            max_churn,
            max_loc,
        }
    }
}


/// The top contributor owns at least 60% of the counted commits.
pub open spec fn dominant(commits: u32, total: u32) -> bool {
    5 * commits >= 3 * total
}

/// The contributor has been silent for more than 180 days.
pub open spec fn inactive(now: i64, last_active: i64) -> bool {
    now - last_active > INACTIVE_DAYS * DAY
}

/// A knowledge silo: enough churn, a single author.
pub open spec fn silo(f: FileMetrics) -> bool {
    f.churn >= SILO_MIN_CHURN && f.authors@.len() == 1
}

/// The order of the silo list: more churn first, then the churn-table order.
pub open spec fn silo_before(files: Seq<FileMetrics>, a: int, b: int) -> bool {
    files[a].churn > files[b].churn || (files[a].churn == files[b].churn && a < b)
}

/// `ps` lists the positions of the silos of `files`, each once, in the silo
/// order.
pub open spec fn silo_table(ps: Seq<usize>, files: Seq<FileMetrics>) -> bool {
    &&& forall|i: int| 0 <= i < ps.len() ==> (#[trigger] ps[i]) < files.len()
    &&& forall|i: int| 0 <= i < files.len() ==> (silo(files[i]) <==> ps.contains(i as usize))
    &&& forall|a: int, b: int| 0 <= a < b < ps.len() ==> silo_before(files, #[trigger] ps[a] as int, #[trigger] ps[b] as int)
}

/// The positions of the silos in the silo order (there is exactly one such
/// list, see `lemma_silo_table_unique`).
pub open spec fn ranked_silos(files: Seq<FileMetrics>) -> Seq<usize> {
    choose|ps: Seq<usize>| silo_table(ps, files)
}

/// Two lists sorted by the silo order that hold the same positions are the
/// same list.
proof fn lemma_silo_sorted_unique(files: Seq<FileMetrics>, p: Seq<usize>, q: Seq<usize>)
    requires
        forall|a: int, b: int| 0 <= a < b < p.len() ==> silo_before(files, #[trigger] p[a] as int, #[trigger] p[b] as int),
        forall|a: int, b: int| 0 <= a < b < q.len() ==> silo_before(files, #[trigger] q[a] as int, #[trigger] q[b] as int),
        forall|x: usize| p.contains(x) <==> q.contains(x),
    ensures
        p == q,
    decreases p.len(),
{
    if p.len() == 0 {
        if q.len() > 0 {
            assert(q.contains(q[0]));
        }
        assert(p =~= q);
    } else {
        assert(p.contains(p[0]));
        assert(q.len() > 0);
        assert(q.contains(q[0]));
        let j = choose|j: int| 0 <= j < p.len() && p[j] == q[0];
        let k = choose|k: int| 0 <= k < q.len() && q[k] == p[0];
        if j > 0 && k > 0 {
            assert(silo_before(files, p[0] as int, p[j] as int));
            assert(silo_before(files, q[0] as int, q[k] as int));
        }
        assert(p[0] == q[0]);
        let pt = p.drop_first();
        let qt = q.drop_first();
        assert forall|x: usize| pt.contains(x) <==> qt.contains(x) by {
            if pt.contains(x) {
                let w = choose|w: int| 0 <= w < pt.len() && pt[w] == x;
                assert(p[w + 1] == x);
                assert(silo_before(files, p[0] as int, p[w + 1] as int));
                assert(p.contains(x));
                let v = choose|v: int| 0 <= v < q.len() && q[v] == x;
                assert(v != 0);
                assert(qt[v - 1] == x);
            }
            if qt.contains(x) {
                let w = choose|w: int| 0 <= w < qt.len() && qt[w] == x;
                assert(q[w + 1] == x);
                assert(silo_before(files, q[0] as int, q[w + 1] as int));
                assert(q.contains(x));
                let v = choose|v: int| 0 <= v < p.len() && p[v] == x;
                assert(v != 0);
                assert(pt[v - 1] == x);
            }
        }
        assert forall|a: int, b: int| 0 <= a < b < pt.len() implies silo_before(files, #[trigger] pt[a] as int, #[trigger] pt[b] as int) by {
            assert(pt[a] == p[a + 1] && pt[b] == p[b + 1]);
        }
        assert forall|a: int, b: int| 0 <= a < b < qt.len() implies silo_before(files, #[trigger] qt[a] as int, #[trigger] qt[b] as int) by {
            assert(qt[a] == q[a + 1] && qt[b] == q[b + 1]);
        }
        lemma_silo_sorted_unique(files, pt, qt);
        assert(p =~= q) by {
            assert forall|i: int| 0 <= i < p.len() implies p[i] == q[i] by {
                if i > 0 {
                    assert(p[i] == pt[i - 1]);
                    assert(q[i] == qt[i - 1]);
                }
            }
        }
    }
}

/// The silo list is fixed by the files: two lists that meet `silo_table` are
/// equal.
pub proof fn lemma_silo_table_unique(files: Seq<FileMetrics>, p: Seq<usize>, q: Seq<usize>)
    requires
        silo_table(p, files),
        silo_table(q, files),
    ensures
        p == q,
{
    assert forall|x: usize| p.contains(x) <==> q.contains(x) by {
        if p.contains(x) {
            let w = choose|w: int| 0 <= w < p.len() && p[w] == x;
            assert(p[w] < files.len());
            assert(p.contains((x as int) as usize));
            assert(silo(files[x as int]));
            assert(q.contains((x as int) as usize));
        }
        if q.contains(x) {
            let w = choose|w: int| 0 <= w < q.len() && q[w] == x;
            assert(q[w] < files.len());
            assert(q.contains((x as int) as usize));
            assert(silo(files[x as int]));
            assert(p.contains((x as int) as usize));
        }
    }
    lemma_silo_sorted_unique(files, p, q);
}

/// The positions of the silos, sorted by churn (highest first), ties in
/// table order.
fn silo_order(files: &Vec<FileMetrics>) -> (ps: Vec<usize>)
    ensures
        silo_table(ps@, files@),
{
    let mut ps: Vec<usize> = Vec::new();
    let mut i: usize = 0;
    while i < files.len()
        invariant
            i <= files@.len(),
            forall|j: int| 0 <= j < ps@.len() ==> (#[trigger] ps@[j]) < i,
            forall|j: int| 0 <= j < i ==> (silo(files@[j]) <==> ps@.contains(j as usize)),
            forall|a: int, b: int| 0 <= a < b < ps@.len() ==> silo_before(files@, #[trigger] ps@[a] as int, #[trigger] ps@[b] as int),
        decreases files@.len() - i,
    {
        let c = files[i].churn;
        if c >= SILO_MIN_CHURN && files[i].authors.len() == 1 {
            let mut pos: usize = 0;
            while pos < ps.len() && files[ps[pos]].churn >= c
                invariant
                    pos <= ps@.len(),
                    forall|j: int| 0 <= j < ps@.len() ==> (#[trigger] ps@[j]) < i,
                    i < files@.len(),
                    c == files@[i as int].churn,
                    forall|j: int| 0 <= j < pos ==> files@[#[trigger] ps@[j] as int].churn >= c,
                decreases ps@.len() - pos,
            {
                pos = pos + 1;
            }
            let ghost old_ps = ps@;
            proof {
                if pos < old_ps.len() {
                    assert(files@[old_ps[pos as int] as int].churn < c);
                }
            }
            ps.insert(pos, i);
            proof {
                let np = ps@;
                assert(np =~= old_ps.insert(pos as int, i));
                assert forall|a: int, b: int| 0 <= a < b < np.len() implies silo_before(files@, #[trigger] np[a] as int, #[trigger] np[b] as int) by {
                    if b < pos {
                    } else if a < pos && b == pos {
                        assert(files@[old_ps[a] as int].churn >= c);
                    } else if a < pos && b > pos {
                        assert(np[a] == old_ps[a]);
                        assert(np[b] == old_ps[b - 1]);
                    } else if a == pos {
                        assert(np[b] == old_ps[b - 1]);
                        if b - 1 > pos {
                            assert(silo_before(files@, old_ps[pos as int] as int, old_ps[b - 1] as int));
                        }
                    } else {
                        assert(np[a] == old_ps[a - 1]);
                        assert(np[b] == old_ps[b - 1]);
                    }
                }
                assert forall|j: int| 0 <= j < i + 1 implies (silo(files@[j]) <==> np.contains(j as usize)) by {
                    if j == i {
                        assert(np[pos as int] == i);
                    } else {
                        if old_ps.contains(j as usize) {
                            let w = choose|w: int| 0 <= w < old_ps.len() && old_ps[w] == j as usize;
                            if w < pos {
                                assert(np[w] == j as usize);
                            } else {
                                assert(np[w + 1] == j as usize);
                            }
                        }
                        if np.contains(j as usize) {
                            let w = choose|w: int| 0 <= w < np.len() && np[w] == j as usize;
                            if w < pos {
                                assert(old_ps[w] == j as usize);
                            } else if w > pos {
                                assert(old_ps[w - 1] == j as usize);
                            }
                        }
                    }
                }
            }
        } else {
            proof {
                assert(!silo(files@[i as int]));
                assert(!ps@.contains(i as usize));
            }
        }
        i = i + 1;
    }
    ps
}

/// The churn top-5 paths that are also among the bug-cluster top-5 with at
/// least two bug fixes, in churn order.
pub open spec fn overlap_positions(files: Seq<FileMetrics>, clusters: Seq<usize>, n: int) -> Seq<int>
    decreases n,
{
    if n <= 0 {
        Seq::empty()
    } else if in_top_bugs(files, clusters, files[n - 1].path@) {
        overlap_positions(files, clusters, n - 1).push(n - 1)
    } else {
        overlap_positions(files, clusters, n - 1)
    }
}

/// `p` is the path of one of the first five bug clusters with at least two
/// bug fixes.
pub open spec fn in_top_bugs(files: Seq<FileMetrics>, clusters: Seq<usize>, p: Seq<char>) -> bool {
    exists|j: int|
        0 <= j < clusters.len() && j < 5 && files[#[trigger] clusters[j] as int].bug_fixes >= 2
            && files[clusters[j] as int].path@ == p
}

/// The firefighting verdict for a yearly count.
pub open spec fn firefight_verdict_of(count: usize) -> Seq<char> {
    if count == 0 {
        "no revert/hotfix commits found — stable team, or commit messages don't say"@
    } else if count <= FIREFIGHT_NORMAL_PER_YEAR {
        "occasional firefighting — normal"@
    } else if count <= FIREFIGHT_NORMAL_PER_YEAR * 4 {
        "elevated revert/hotfix rate — review test and deploy reliability"@
    } else {
        "frequent reverts/hotfixes — the team does not trust its deploy process"@
    }
}

/// Law: the bus-factor flags in plain numbers: the top contributor is
/// dominant with at least 60% of the counted commits, and inactive after
/// more than 180 days (15,552,000 seconds) without a commit.
pub proof fn law_bus_factor_thresholds(commits: u32, total: u32, now: i64, last_active: i64)
    ensures
        dominant(commits, total) <==> 100 * commits >= 60 * total,
        inactive(now, last_active) <==> now - last_active > 15_552_000,
{
}

/// Law: the firefighting verdict by yearly count: none for 0, "occasional"
/// up to 6, "elevated" from 7 to 24, "frequent" above 24.
pub proof fn law_firefight_verdict_ranges(count: usize)
    ensures
        count == 0 ==> firefight_verdict_of(count) == "no revert/hotfix commits found — stable team, or commit messages don't say"@,
        1 <= count <= 6 ==> firefight_verdict_of(count) == "occasional firefighting — normal"@,
        7 <= count <= 24 ==> firefight_verdict_of(count) == "elevated revert/hotfix rate — review test and deploy reliability"@,
        count > 24 ==> firefight_verdict_of(count) == "frequent reverts/hotfixes — the team does not trust its deploy process"@,
{
}

impl Report {
    /// Sorts the hotspots by score, highest first; files of equal score keep
    /// their table order. `keys` holds one key per file of `files`, ordered
    /// as the scores are (for non-negative floating-point scores, their bit
    /// patterns). Nothing else of the report changes.
    pub fn rank_hotspots(&mut self, keys: &Vec<u64>)
        requires
            keys@.len() == old(self).files@.len(),
        ensures
            hotspot_ranking(final(self).hotspots@, old(self).files@, keys@),
            final(self).hotspots@ == ranked_hotspots(old(self).files@, keys@),
            *final(self) == (Report { hotspots: final(self).hotspots, ..*old(self) }),
    {
        let order = hotspot_order(&self.files, keys);
        proof {
            assert(hotspot_ranking(ranked_hotspots(self.files@, keys@), self.files@, keys@));
            lemma_hotspot_ranking_unique(self.files@, keys@, order@, ranked_hotspots(self.files@, keys@));
        }
        self.hotspots = order;
    }

    /// Top contributor flags: (share of at least 60%, inactive for more than
    /// 180 days); both false without contributors.
    pub open spec fn flags(self) -> (bool, bool) {
        if self.authors@.len() == 0 {
            (false, false)
        } else {
            (
                dominant(self.authors@[0].commits, self.ownership_total),
                inactive(self.now, self.authors@[0].last_active),
            )
        }
    }

    /// The paths of the churn top-5 that are also bug-cluster top-5 with at
    /// least two bug fixes, in churn order.
    pub open spec fn overlap_paths(self) -> Seq<Seq<char>> {
        overlap_positions(
            self.files@,
            self.bug_clusters@,
            if self.files@.len() < 5 { self.files@.len() as int } else { 5 },
        ).map_values(|i: int| self.files@[i].path@)
    }

    /// Top contributor flags: (share of at least 60%, inactive for more than
    /// 180 days); both false without contributors.
    pub fn bus_factor_flags(&self) -> (r: (bool, bool))
        ensures
            r == self.flags(),
    {
        if self.authors.len() == 0 {
            (false, false)
        } else {
            let top = &self.authors[0];
            (
                5 * (top.commits as u64) >= 3 * (self.ownership_total as u64),
                (self.now as i128) - (top.last_active as i128) > 180 * 86400,
            )
        }
    }

    /// Single-author files with enough churn to be a knowledge silo, most
    /// churned first; files of equal churn keep their table order.
    pub fn silos(&self) -> (r: Vec<&FileMetrics>)
        ensures
            silo_table(ranked_silos(self.files@), self.files@),
            r@.len() == ranked_silos(self.files@).len(),
            forall|i: int| 0 <= i < r@.len() ==> *(#[trigger] r@[i]) == self.files@[ranked_silos(self.files@)[i] as int],
    {
        let order = silo_order(&self.files);
        proof {
            assert(silo_table(ranked_silos(self.files@), self.files@));
            lemma_silo_table_unique(self.files@, order@, ranked_silos(self.files@));
        }
        let mut r: Vec<&FileMetrics> = Vec::new();
        let mut k: usize = 0;
        while k < order.len()
            invariant
                k <= order@.len(),
                silo_table(order@, self.files@),
                r@.len() == k,
                forall|j: int| 0 <= j < k ==> *(#[trigger] r@[j]) == self.files@[order@[j] as int],
            decreases order@.len() - k,
        {
            r.push(&self.files[order[k]]);
            k = k + 1;
        }
        r
    }

    /// Paths in both the churn top-5 and the bug-cluster top-5 (with at least
    /// two bug fixes): the highest-risk files of the repository.
    pub fn churn_bug_overlap(&self) -> (r: Vec<String>)
        requires
            forall|j: int| 0 <= j < self.bug_clusters@.len() ==> (#[trigger] self.bug_clusters@[j]) < self.files@.len(),
        ensures
            views(r@) == self.overlap_paths(),
    {
        let limit: usize = if self.files.len() < 5 { self.files.len() } else { 5 };
        let mut r: Vec<String> = Vec::new();
        let mut i: usize = 0;
        while i < limit
            invariant
                i <= limit,
                limit <= self.files@.len(),
                forall|j: int| 0 <= j < self.bug_clusters@.len() ==> (#[trigger] self.bug_clusters@[j]) < self.files@.len(),
                views(r@) == overlap_positions(self.files@, self.bug_clusters@, i as int).map_values(|q: int| self.files@[q].path@),
            decreases limit - i,
        {
            let f = &self.files[i];
            let mut found = false;
            let mut j: usize = 0;
            while j < self.bug_clusters.len() && j < 5
                invariant
                    j <= self.bug_clusters@.len(),
                    forall|q: int| 0 <= q < self.bug_clusters@.len() ==> (#[trigger] self.bug_clusters@[q]) < self.files@.len(),
                    found <==> exists|q: int|
                        0 <= q < j && q < 5 && self.files@[#[trigger] self.bug_clusters@[q] as int].bug_fixes >= 2
                            && self.files@[self.bug_clusters@[q] as int].path@ == f.path@,
                decreases 5 - j,
            {
                let g = &self.files[self.bug_clusters[j]];
                if g.bug_fixes >= 2 && g.path == f.path {
                    found = true;
                }
                j = j + 1;
            }
            assert(found == in_top_bugs(self.files@, self.bug_clusters@, f.path@));
            if found {
                let ghost before = r@;
                r.push(f.path.clone());
                proof {
                    assert(views(r@) =~= views(before).push(f.path@));
                }
            }
            i = i + 1;
        }
        r
    }

    /// How worrying the yearly revert/hotfix count is.
    pub fn firefight_verdict(&self) -> (v: &'static str)
        ensures
            v@ == firefight_verdict_of(self.firefight.count_last_year),
    {
        let n = self.firefight.count_last_year;
        if n == 0 {
            "no revert/hotfix commits found — stable team, or commit messages don't say"
        } else if n <= FIREFIGHT_NORMAL_PER_YEAR {
            "occasional firefighting — normal"
        } else if n <= FIREFIGHT_NORMAL_PER_YEAR * 4 {
            "elevated revert/hotfix rate — review test and deploy reliability"
        } else {
            "frequent reverts/hotfixes — the team does not trust its deploy process"
        }
    }
}

/// Whole days from `then` to `now`, rounded toward zero.
pub open spec fn days_between(now: i64, then: i64) -> int {
    let d = now - then;
    if d >= 0 {
        d / DAY as int
    } else {
        -((-d) / DAY as int)
    }
}

/// Human-friendly "N days ago" for table cells.
pub open spec fn days_ago_text(now: i64, then: i64) -> Seq<char> {
    let d = days_between(now, then);
    if d == 0 {
        "today"@
    } else if d == 1 {
        "yesterday"@
    } else {
        signed_decimal(d) + "d ago"@
    }
}

/// Law: ages are whole days elapsed, rounded down for past times: a time
/// `k` days and `r` seconds (`r` under a day) before `now` reads `today`
/// for `k` = 0, `yesterday` for `k` = 1, and `<k>d ago` beyond.
pub proof fn law_days_ago_whole_days(now: i64, then: i64, k: int, r: int)
    requires
        k >= 0,
        0 <= r < 86400,
        now - then == k * 86400 + r,
    ensures
        k == 0 ==> days_ago_text(now, then) == "today"@,
        k == 1 ==> days_ago_text(now, then) == "yesterday"@,
        k >= 2 ==> days_ago_text(now, then) == decimal(k as nat) + "d ago"@,
{
    assert((k * 86400 + r) / 86400 == k) by (nonlinear_arith)
        requires
            k >= 0,
            0 <= r < 86400,
    ;
    assert(days_between(now, then) == k);
}

/// Human-friendly "N days ago" for table cells: `today`, `yesterday` or
/// `<N>d ago` (whole days, rounded toward zero).
pub fn days_ago(now: i64, then: i64) -> (s: String)
    ensures
        s@ == days_ago_text(now, then),
{
    let diff: i128 = (now as i128) - (then as i128);
    let d: i128 = if diff >= 0 { diff / 86400 } else { -((-diff) / 86400) };
    if d == 0 {
        let mut s = String::new();
        append_str(&mut s, "today");
        s
    } else if d == 1 {
        let mut s = String::new();
        append_str(&mut s, "yesterday");
        s
    } else {
        let mut s = signed_decimal_string(d);
        append_str(&mut s, "d ago");
        s
    }
}


// ---------------------------------------------------------------------
// Laws of the report
// ---------------------------------------------------------------------

proof fn lemma_table_paths_admitted(r: Report, h: History, loc: Seq<(String, usize)>, filter: PathFilter, now: i64, i: int)
    requires
        report_of(r, h, loc, filter, now),
        0 <= i < r.files@.len(),
    ensures
        changed_and_admitted(h, filter, r.files@[i].path@),
{
    let p = r.files@[i].path@;
    assert(exists|j: int| 0 <= j < r.files@.len() && (#[trigger] r.files@[j]).path@ == p);
}

/// Law: with a scope, every file of the report lies inside it.
pub proof fn law_report_within_scope(r: Report, h: History, loc: Seq<(String, usize)>, filter: PathFilter, now: i64)
    requires
        report_of(r, h, loc, filter, now),
        filter.scope_prefix() is Some,
    ensures
        forall|i: int| 0 <= i < r.files@.len() ==> has_prefix((#[trigger] r.files@[i]).path@, filter.scope_prefix()->0),
{
    assert forall|i: int| 0 <= i < r.files@.len() implies has_prefix((#[trigger] r.files@[i]).path@, filter.scope_prefix()->0) by {
        lemma_table_paths_admitted(r, h, loc, filter, now, i);
    }
}

/// Law: with the default filters on, no lockfile, changelog, vendored or
/// generated file appears in the report.
pub proof fn law_report_free_of_noise(r: Report, h: History, loc: Seq<(String, usize)>, filter: PathFilter, now: i64)
    requires
        report_of(r, h, loc, filter, now),
        filter.noise_filtered(),
    ensures
        forall|i: int| 0 <= i < r.files@.len() ==> !is_noise_path((#[trigger] r.files@[i]).path@),
{
    assert forall|i: int| 0 <= i < r.files@.len() implies !is_noise_path((#[trigger] r.files@[i]).path@) by {
        lemma_table_paths_admitted(r, h, loc, filter, now, i);
    }
}

/// Law: no file of the report matches an exclusion pattern.
pub proof fn law_report_honours_exclusions(r: Report, h: History, loc: Seq<(String, usize)>, filter: PathFilter, now: i64)
    requires
        report_of(r, h, loc, filter, now),
    ensures
        forall|i: int, k: int|
            0 <= i < r.files@.len() && 0 <= k < filter.exclusions().len() ==> !regex_finds(
                #[trigger] filter.exclusions()[k],
                #[trigger] r.files@[i].path@,
            ),
{
    assert forall|i: int, k: int|
        0 <= i < r.files@.len() && 0 <= k < filter.exclusions().len() implies !regex_finds(
            #[trigger] filter.exclusions()[k],
            #[trigger] r.files@[i].path@,
        ) by {
        lemma_table_paths_admitted(r, h, loc, filter, now, i);
    }
}

proof fn lemma_churn_positive(h: History, p: Seq<char>, n: int, k: int)
    requires
        0 <= k < n,
        change_path(h, k) == p,
    ensures
        churn_in(h, p, n) >= 1,
    decreases n,
{
    if k < n - 1 {
        lemma_churn_positive(h, p, n - 1, k);
    }
}

/// Law: every file of the report was changed at least once, has at least
/// one author, and has no more bug fixes than changes.
pub proof fn law_file_metrics_consistent(r: Report, h: History, loc: Seq<(String, usize)>, filter: PathFilter, now: i64)
    requires
        report_of(r, h, loc, filter, now),
        history_wf(h),
    ensures
        forall|i: int|
            0 <= i < r.files@.len() ==> {
                let f = #[trigger] r.files@[i];
                &&& f.churn >= 1
                &&& f.bug_fixes <= f.churn
                &&& f.authors@.len() >= 1
            },
{
    assert forall|i: int| 0 <= i < r.files@.len() implies {
        let f = #[trigger] r.files@[i];
        &&& f.churn >= 1
        &&& f.bug_fixes <= f.churn
        &&& f.authors@.len() >= 1
    } by {
        let f = r.files@[i];
        lemma_table_paths_admitted(r, h, loc, filter, now, i);
        let k = choose|k: int| 0 <= k < h.changes@.len() && #[trigger] change_path(h, k) == f.path@ && filter.admits(f.path@);
        lemma_churn_positive(h, f.path@, h.changes@.len() as int, k);
        lemma_churn_bounded(h, f.path@, h.changes@.len() as int);
        assert(file_entry(f, h, loc));
        assert(touched_by(h, f.path@, change_meta(h, k).author@));
        assert(views(f.authors@).contains(change_meta(h, k).author@));
    }
}

/// Law: the churn table is ordered by churn, most changed first.
pub proof fn law_files_most_churned_first(r: Report, h: History, loc: Seq<(String, usize)>, filter: PathFilter, now: i64)
    requires
        report_of(r, h, loc, filter, now),
    ensures
        forall|i: int, j: int| 0 <= i < j < r.files@.len() ==> (#[trigger] r.files@[i]).churn >= (#[trigger] r.files@[j]).churn,
{
    assert forall|i: int, j: int| 0 <= i < j < r.files@.len() implies (#[trigger] r.files@[i]).churn >= (#[trigger] r.files@[j]).churn by {
        assert(file_before(r.files@[i], r.files@[j]));
    }
}

/// Sum over `names` of the participating commits among the first `n` by
/// each.
pub open spec fn named_commits(metas: Seq<CommitMeta>, mask: Seq<bool>, names: Seq<Seq<char>>, n: int) -> nat
    decreases names.len(),
{
    if names.len() == 0 {
        0
    } else {
        named_commits(metas, mask, names.drop_last(), n) + commits_by(metas, mask, names.last(), n)
    }
}

proof fn lemma_named_commits_step(metas: Seq<CommitMeta>, mask: Seq<bool>, names: Seq<Seq<char>>, n: int)
    requires
        1 <= n,
    ensures
        named_commits(metas, mask, names, n) == named_commits(metas, mask, names, n - 1) + if mask[n - 1] {
            occurrences(names, Some(metas[n - 1].author@))
        } else {
            0
        },
    decreases names.len(),
{
    if names.len() > 0 {
        lemma_named_commits_step(metas, mask, names.drop_last(), n);
    }
}

proof fn lemma_named_commits_zero(metas: Seq<CommitMeta>, mask: Seq<bool>, names: Seq<Seq<char>>)
    ensures
        named_commits(metas, mask, names, 0) == 0,
    decreases names.len(),
{
    if names.len() > 0 {
        lemma_named_commits_zero(metas, mask, names.drop_last());
    }
}

proof fn lemma_present_occurrence(keys: Seq<Seq<char>>, k: Seq<char>)
    requires
        forall|i: int, j: int| 0 <= i < j < keys.len() ==> keys[i] != keys[j],
        keys.contains(k),
    ensures
        occurrences(keys, Some(k)) == 1,
    decreases keys.len(),
{
    let p = keys.drop_last();
    if keys.last() == k {
        lemma_distinct_occurrences(p, Some(k));
        assert(!p.contains(k)) by {
            if p.contains(k) {
                let i = choose|i: int| 0 <= i < p.len() && p[i] == k;
                assert(keys[i] == keys[keys.len() - 1]);
            }
        }
        lemma_distinct_occurrences(keys, Some(k));
    } else {
        let i = choose|i: int| 0 <= i < keys.len() && keys[i] == k;
        assert(i != keys.len() - 1);
        assert(p[i] == k);
        lemma_present_occurrence(p, k);
    }
}

proof fn lemma_named_commits_total(metas: Seq<CommitMeta>, mask: Seq<bool>, names: Seq<Seq<char>>, n: int)
    requires
        0 <= n <= metas.len(),
        mask.len() == metas.len(),
        forall|i: int, j: int| 0 <= i < j < names.len() ==> names[i] != names[j],
        forall|a: Seq<char>| contributor(metas, mask, a) ==> names.contains(a),
    ensures
        named_commits(metas, mask, names, n) == participating(mask, n),
    decreases n,
{
    if n == 0 {
        lemma_named_commits_zero(metas, mask, names);
    } else {
        lemma_named_commits_total(metas, mask, names, n - 1);
        lemma_named_commits_step(metas, mask, names, n);
        if mask[n - 1] {
            let a = metas[n - 1].author@;
            assert(contributor(metas, mask, a));
            lemma_present_occurrence(names, a);
        }
    }
}

/// The names of an ownership table.
pub open spec fn author_names(authors: Seq<AuthorStats>) -> Seq<Seq<char>> {
    authors.map_values(|a: AuthorStats| a.name@)
}

/// Sum of the commit counts of an ownership table.
pub open spec fn commit_total(authors: Seq<AuthorStats>) -> nat
    decreases authors.len(),
{
    if authors.len() == 0 {
        0
    } else {
        commit_total(authors.drop_last()) + authors.last().commits as nat
    }
}

proof fn lemma_commit_total_named(authors: Seq<AuthorStats>, metas: Seq<CommitMeta>, mask: Seq<bool>, floor: i64, k: int)
    requires
        ownership_table(authors, metas, mask, floor),
        0 <= k <= authors.len(),
    ensures
        commit_total(authors.take(k)) == named_commits(metas, mask, author_names(authors.take(k)), metas.len() as int),
    decreases k,
{
    if k > 0 {
        lemma_commit_total_named(authors, metas, mask, floor, k - 1);
        assert(authors.take(k).drop_last() =~= authors.take(k - 1));
        assert(author_names(authors.take(k)).drop_last() =~= author_names(authors.take(k - 1)));
        assert(authors[k - 1].commits == commits_by(metas, mask, authors[k - 1].name@, metas.len() as int));
    }
}

/// Law: the commit counts of the ownership table add up to the commits that
/// count for ownership, so the shares sum to 100%.
pub proof fn law_ownership_covers_all_commits(r: Report, h: History, loc: Seq<(String, usize)>, filter: PathFilter, now: i64)
    requires
        report_of(r, h, loc, filter, now),
    ensures
        commit_total(r.authors@) == participating(ownership_mask(h, filter), h.metas@.len() as int),
{
    let authors = r.authors@;
    let mask = ownership_mask(h, filter);
    let names = author_names(authors);
    assert forall|i: int, j: int| 0 <= i < j < names.len() implies names[i] != names[j] by {
        assert(author_before(authors[i], authors[j]));
        lemma_author_before_order(authors[i], authors[j], authors[i]);
        lemma_seq_lt_order(authors[i].name@, authors[j].name@, authors[i].name@);
    }
    assert forall|a: Seq<char>| contributor(h.metas@, mask, a) implies names.contains(a) by {
        let i = choose|i: int| 0 <= i < authors.len() && (#[trigger] authors[i]).name@ == a;
        assert(names[i] == a);
    }
    lemma_commit_total_named(authors, h.metas@, mask, ownership_floor(filter), authors.len() as int);
    assert(authors.take(authors.len() as int) =~= authors);
    lemma_named_commits_total(h.metas@, mask, names, h.metas@.len() as int);
}

/// Number of commits among the first `n` with a calendar month.
pub open spec fn dated(metas: Seq<CommitMeta>, n: int) -> nat
    decreases n,
{
    if n <= 0 {
        0
    } else {
        dated(metas, n - 1) + if month_of(metas[n - 1].time) is Some {
            1nat
        } else {
            0nat
        }
    }
}

proof fn lemma_keyed_total_dated(metas: Seq<CommitMeta>, keys: Seq<Seq<char>>, n: int)
    requires
        0 <= n <= metas.len(),
        forall|i: int, j: int| 0 <= i < j < keys.len() ==> keys[i] != keys[j],
        forall|m: int| 0 <= m < metas.len() && (#[trigger] month_of(metas[m].time)) is Some ==> keys.contains(month_of(metas[m].time)->0),
    ensures
        keyed_total(metas, keys, n) == dated(metas, n),
    decreases n,
{
    if n == 0 {
        lemma_keyed_total_zero(metas, keys);
    } else {
        lemma_keyed_total_dated(metas, keys, n - 1);
        lemma_keyed_total_step(metas, keys, n);
        let x = month_of(metas[n - 1].time);
        if x is Some {
            assert(keys.contains(x->0));
            lemma_present_occurrence(keys, x->0);
        } else {
            lemma_no_occurrence_of_none(keys);
        }
    }
}

proof fn lemma_no_occurrence_of_none(keys: Seq<Seq<char>>)
    ensures
        occurrences(keys, None) == 0,
    decreases keys.len(),
{
    if keys.len() > 0 {
        lemma_no_occurrence_of_none(keys.drop_last());
    }
}

/// Law: the velocity chart counts every commit of the history with a
/// calendar month exactly once.
pub proof fn law_velocity_counts_every_commit(r: Report, h: History, loc: Seq<(String, usize)>, filter: PathFilter, now: i64)
    requires
        report_of(r, h, loc, filter, now),
    ensures
        total(month_counts(r.velocity.months@)) == dated(h.metas@, h.metas@.len() as int),
{
    let months = r.velocity.months@;
    let keys = month_keys(months);
    assert forall|i: int, j: int| 0 <= i < j < keys.len() implies keys[i] != keys[j] by {
        crate::text::lemma_seq_lt_order(keys[i], keys[j], keys[i]);
    }
    assert forall|m: int| 0 <= m < h.metas@.len() && (#[trigger] month_of(h.metas@[m].time)) is Some implies keys.contains(month_of(h.metas@[m].time)->0) by {
        let k = month_of(h.metas@[m].time)->0;
        assert(month_of(h.metas@[m].time) == Some(k));
    }
    lemma_keyed_total_dated(h.metas@, keys, h.metas@.len() as int);
    lemma_table_total(months, h.metas@, months.len() as int);
    assert(months.take(months.len() as int) =~= months);
}


/// Law: a path gets a line count exactly when the line-count table has an
/// entry for it; since table keys and change paths are both stripped of
/// control characters in the same way, a file present at HEAD always joins
/// its churn.
pub proof fn law_line_counts_join(loc: Seq<(String, usize)>, p: Seq<char>)
    ensures
        loc_of(loc, p) is Some <==> exists|i: int| 0 <= i < loc.len() && (#[trigger] loc[i]).0@ == p,
    decreases loc.len(),
{
    if loc.len() > 0 {
        law_line_counts_join(loc.drop_last(), p);
        if exists|i: int| 0 <= i < loc.len() && (#[trigger] loc[i]).0@ == p {
            let i = choose|i: int| 0 <= i < loc.len() && (#[trigger] loc[i]).0@ == p;
            if i < loc.len() - 1 {
                assert(loc.drop_last()[i].0@ == p);
            }
        }
        if exists|i: int| 0 <= i < loc.drop_last().len() && (#[trigger] loc.drop_last()[i]).0@ == p {
            let i = choose|i: int| 0 <= i < loc.drop_last().len() && (#[trigger] loc.drop_last()[i]).0@ == p;
            assert(loc[i].0@ == p);
        }
    }
}

} // verus!
