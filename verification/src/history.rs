//! Commit history: classification of commits, the analysis window, and the
//! assembly of changed paths.
//!
//! The application walks the repository and hands over each commit's raw
//! metadata (newest first) and, for the commits of the window, the paths
//! their diffs touch; this module decides everything else.
use vstd::prelude::*;
use crate::filter::{trimmed, AuthorFilter};
use crate::pattern::{regex_finds, regex_search};
use crate::sanitize::{free_of_controls, law_stripped_has_no_controls, strip_controls, stripped};
use crate::text::views;

verus! {

pub const DAY: i64 = 86400;

/// What the repository reports about one commit.
pub struct RawCommit {
    /// The author's name, when it is valid UTF-8.
    pub author: Option<String>,
    /// Commit time, seconds since the epoch.
    pub time: i64,
    /// The first paragraph of the message, when there is one.
    pub summary: Option<String>,
    /// The full message (empty when it is not valid UTF-8).
    pub message: String,
    pub parent_count: usize,
}

pub struct CommitMeta {
    pub author: String,
    pub time: i64,
    pub summary: String,
    pub is_merge: bool,
    pub is_bugfix: bool,
    pub is_firefight: bool,
}

pub struct FileChange {
    pub path: String,
    /// Index into `History::metas` for the commit that touched this path.
    pub meta_idx: usize,
}

pub struct History {
    /// Every commit reachable from HEAD, newest first.
    pub metas: Vec<CommitMeta>,
    /// Changed paths for the non-merge commits inside the analysis window.
    pub changes: Vec<FileChange>,
    /// Number of non-merge commits whose diffs were analyzed.
    pub window_commits: usize,
}

pub struct WindowOpts {
    pub max_commits: usize,
    pub days: Option<u32>,
    pub now: i64,
    /// Commits by these authors are dropped from the history entirely.
    pub authors: AuthorFilter,
}

/// The commits of the history, and which of them form the analysis window.
pub struct Selection {
    /// One entry per commit whose author is not excluded, in walk order.
    pub metas: Vec<CommitMeta>,
    /// For each commit of the window: its position among the raw commits
    /// and its index in `metas`.
    pub window: Vec<(usize, usize)>,
}

/// Bug-fix commit messages: `fix`, `fixes`, `fixed`, `bug` or `broken` as
/// a word, in any case.
pub open spec fn bug_pattern() -> Seq<char> {
    "(?i)\\b(fix(es|ed)?|bug|broken)\\b"@
}

/// Firefighting commit messages: reverts, hotfixes, emergencies and
/// rollbacks, as words, in any case.
pub open spec fn firefight_pattern() -> Seq<char> {
    "(?i)\\b(revert(ed)?|hotfix|emergency|roll(ed)?[ -]?back|rollback)\\b"@
}

/// Whether a commit message marks a bug fix.
pub fn is_bugfix_message(message: &str) -> (r: bool)
    ensures
        r == regex_finds(bug_pattern(), message@),
{
    match regex_search("(?i)\\b(fix(es|ed)?|bug|broken)\\b", message) {
        Some(b) => b,
        None => false,
    }
}

/// Whether a commit message marks a revert, hotfix or rollback.
pub fn is_firefight_message(message: &str) -> (r: bool)
    ensures
        r == regex_finds(firefight_pattern(), message@),
{
    match regex_search("(?i)\\b(revert(ed)?|hotfix|emergency|roll(ed)?[ -]?back|rollback)\\b", message) {
        Some(b) => b,
        None => false,
    }
}

/// The recorded author of a commit: the name (`<unknown>` when missing),
/// trimmed, with control characters stripped.
pub open spec fn author_of(raw: RawCommit) -> Seq<char> {
    stripped(
        trimmed(
            match raw.author {
                Some(a) => a@,
                None => "<unknown>"@,
            },
        ),
    )
}

/// The recorded summary of a commit, with control characters stripped.
pub open spec fn summary_of(raw: RawCommit) -> Seq<char> {
    stripped(
        match raw.summary {
            Some(s) => s@,
            None => Seq::empty(),
        },
    )
}

/// `m` is the metadata recorded for `raw`.
pub open spec fn describes(m: CommitMeta, raw: RawCommit) -> bool {
    &&& m.author@ == author_of(raw)
    &&& m.time == raw.time
    &&& m.summary@ == summary_of(raw)
    &&& m.is_merge == (raw.parent_count > 1)
    &&& m.is_bugfix == regex_finds(bug_pattern(), raw.message@)
    &&& m.is_firefight == regex_finds(firefight_pattern(), raw.message@)
}

/// Builds the metadata of one commit. Author names and summaries are
/// attacker-controlled in untrusted repositories, so control characters
/// are stripped before they reach any output.
pub fn commit_meta(raw: &RawCommit) -> (m: CommitMeta)
    ensures
        describes(m, *raw),
{
    let author = match &raw.author {
        Some(a) => crate::filter::trim_str(a.as_str()),
        None => crate::filter::trim_str("<unknown>"),
    };
    let summary = match &raw.summary {
        Some(s) => strip_controls(s.as_str()),
        None => strip_controls(""),
    };
    proof {
        reveal_strlit("");
        assert(""@ =~= Seq::<char>::empty());
    }
    CommitMeta {
        author: strip_controls(author.as_str()),
        time: raw.time,
        summary,
        is_merge: raw.parent_count > 1,
        is_bugfix: is_bugfix_message(raw.message.as_str()),
        is_firefight: is_firefight_message(raw.message.as_str()),
    }
}

/// The commit is inside the `--days` limit (always, without one).
pub open spec fn recent(opts: WindowOpts, time: i64) -> bool {
    match opts.days {
        Some(d) => time >= opts.now - d * DAY,
        None => true,
    }
}

/// The commit's author is not excluded.
pub open spec fn kept(opts: WindowOpts, raw: RawCommit) -> bool {
    !opts.authors.excludes(author_of(raw))
}

/// Number of kept commits among the first `n`.
pub open spec fn kept_count(raws: Seq<RawCommit>, opts: WindowOpts, n: int) -> nat
    decreases n,
{
    if n <= 0 {
        0
    } else {
        kept_count(raws, opts, n - 1) + if kept(opts, raws[n - 1]) {
            1nat
        } else {
            0nat
        }
    }
}

/// The commits among the first `n` that may enter the window: kept, not a
/// merge, and recent; each as (raw position, meta index).
pub open spec fn eligible(raws: Seq<RawCommit>, opts: WindowOpts, n: int) -> Seq<(int, int)>
    decreases n,
{
    if n <= 0 {
        Seq::empty()
    } else if kept(opts, raws[n - 1]) && raws[n - 1].parent_count <= 1 && recent(
        opts,
        raws[n - 1].time,
    ) {
        eligible(raws, opts, n - 1).push((n - 1, kept_count(raws, opts, n - 1) as int))
    } else {
        eligible(raws, opts, n - 1)
    }
}

/// The window: the first `max_commits` eligible commits.
pub open spec fn window_of(raws: Seq<RawCommit>, opts: WindowOpts) -> Seq<(int, int)> {
    let e = eligible(raws, opts, raws.len() as int);
    if e.len() <= opts.max_commits {
        e
    } else {
        e.take(opts.max_commits as int)
    }
}

/// A window as pairs of integers.
pub open spec fn pairs(w: Seq<(usize, usize)>) -> Seq<(int, int)> {
    w.map_values(|p: (usize, usize)| (p.0 as int, p.1 as int))
}

proof fn lemma_kept_count_bounded(raws: Seq<RawCommit>, opts: WindowOpts, n: int)
    requires
        0 <= n,
    ensures
        kept_count(raws, opts, n) <= n,
    decreases n,
{
    if n > 0 {
        lemma_kept_count_bounded(raws, opts, n - 1);
    }
}

/// Records the commits of the walk (newest first) whose author is not
/// excluded, and picks the analysis window: the first `max_commits` of them
/// that are not merges and, with `--days`, not older than the cutoff.
pub fn select_window(raws: &Vec<RawCommit>, opts: &WindowOpts) -> (s: Selection)
    ensures
        s.metas@.len() == kept_count(raws@, *opts, raws@.len() as int),
        forall|i: int|
            0 <= i < raws@.len() && kept(*opts, raws@[i]) ==> describes(
                #[trigger] s.metas@[kept_count(raws@, *opts, i) as int],
                raws@[i],
            ),
        pairs(s.window@) == window_of(raws@, *opts),
        // recorded authors and summaries carry no control characters
        forall|j: int|
            0 <= j < s.metas@.len() ==> free_of_controls((#[trigger] s.metas@[j]).author@)
                && free_of_controls(s.metas@[j].summary@),
        // no commit of an excluded author is recorded
        forall|j: int| 0 <= j < s.metas@.len() ==> !opts.authors.excludes((#[trigger] s.metas@[j]).author@),
        // the window holds at most `max_commits` recorded non-merge commits
        s.window@.len() <= opts.max_commits,
        forall|w: int|
            0 <= w < s.window@.len() ==> (#[trigger] s.window@[w]).1 < s.metas@.len() && !s.metas@[s.window@[w].1 as int].is_merge,
{
    let mut metas: Vec<CommitMeta> = Vec::new();
    let mut window: Vec<(usize, usize)> = Vec::new();
    let mut i: usize = 0;
    while i < raws.len()
        invariant
            i <= raws.len(),
            metas@.len() == kept_count(raws@, *opts, i as int),
            forall|k: int|
                0 <= k < i && kept(*opts, raws@[k]) ==> describes(
                    #[trigger] metas@[kept_count(raws@, *opts, k) as int],
                    raws@[k],
                ),
            pairs(window@) == if eligible(raws@, *opts, i as int).len() <= opts.max_commits {
                eligible(raws@, *opts, i as int)
            } else {
                eligible(raws@, *opts, i as int).take(opts.max_commits as int)
            },
        decreases raws.len() - i,
    {
        let raw = &raws[i];
        let m = commit_meta(raw);
        let excluded = opts.authors.excluded(m.author.as_str());
        let ghost e0 = eligible(raws@, *opts, i as int);
        if !excluded {
            let recent_enough = match opts.days {
                Some(d) => (raw.time as i128) >= (opts.now as i128) - (d as i128) * 86400,
                None => true,
            };
            if recent_enough && window.len() < opts.max_commits && !m.is_merge {
                let ghost before = window@;
                window.push((i, metas.len()));
                proof {
                    assert(pairs(window@) =~= pairs(before).push((i as int, metas@.len() as int)));
                    if e0.len() > opts.max_commits {
                        assert(pairs(before).len() == opts.max_commits);
                    }
                    assert(eligible(raws@, *opts, i + 1) == e0.push((i as int, kept_count(raws@, *opts, i as int) as int)));
                    assert(pairs(window@) =~= eligible(raws@, *opts, i + 1));
                }
            } else {
                proof {
                    let e1 = eligible(raws@, *opts, i + 1);
                    if recent_enough && !m.is_merge {
                        assert(e1 == e0.push((i as int, kept_count(raws@, *opts, i as int) as int)));
                        assert(e0.len() >= opts.max_commits);
                        assert(e1.take(opts.max_commits as int) =~= if e0.len() <= opts.max_commits { e0 } else { e0.take(opts.max_commits as int) });
                    } else {
                        assert(e1 == e0);
                    }
                }
            }
            let ghost old_metas = metas@;
            metas.push(m);
            proof {
                lemma_kept_count_bounded(raws@, *opts, i as int);
                assert forall|k: int|
                    0 <= k < i + 1 && kept(*opts, raws@[k]) implies describes(
                        #[trigger] metas@[kept_count(raws@, *opts, k) as int],
                        raws@[k],
                    ) by {
                    if k < i {
                        lemma_kept_count_mono(raws@, *opts, k + 1, i as int);
                        assert(metas@[kept_count(raws@, *opts, k) as int] == old_metas[kept_count(raws@, *opts, k) as int]);
                    }
                }
            }
        } else {
            assert(eligible(raws@, *opts, i + 1) == e0);
        }
        i = i + 1;
    }
    proof {
        let n = raws@.len() as int;
        assert forall|j: int| 0 <= j < metas@.len() implies !opts.authors.excludes((#[trigger] metas@[j]).author@)
            && free_of_controls(metas@[j].author@) && free_of_controls(metas@[j].summary@) by {
            lemma_kept_count_onto(raws@, *opts, n, j);
            let i = choose|i: int| 0 <= i < n && kept(*opts, raws@[i]) && kept_count(raws@, *opts, i) == j;
            assert(describes(metas@[kept_count(raws@, *opts, i) as int], raws@[i]));
            law_stripped_has_no_controls(trimmed(
                match raws@[i].author {
                    Some(a) => a@,
                    None => "<unknown>"@,
                },
            ));
            law_stripped_has_no_controls(
                match raws@[i].summary {
                    Some(x) => x@,
                    None => Seq::empty(),
                },
            );
        }
        lemma_eligible_valid(raws@, *opts, n);
        let e = eligible(raws@, *opts, n);
        assert forall|w: int| 0 <= w < window@.len() implies (#[trigger] window@[w]).1 < metas@.len() && !metas@[window@[w].1 as int].is_merge by {
            assert(pairs(window@)[w] == e[w]);
            let i = e[w].0;
            assert(kept(*opts, raws@[i]) && raws@[i].parent_count <= 1 && e[w].1 == kept_count(raws@, *opts, i));
            lemma_kept_count_mono(raws@, *opts, i + 1, n);
            assert(describes(metas@[kept_count(raws@, *opts, i) as int], raws@[i]));
        }
    }
    Selection { metas, window }
}

proof fn lemma_kept_count_onto(raws: Seq<RawCommit>, opts: WindowOpts, n: int, j: int)
    requires
        0 <= n,
        0 <= j < kept_count(raws, opts, n),
    ensures
        exists|i: int| 0 <= i < n && kept(opts, raws[i]) && kept_count(raws, opts, i) == j,
    decreases n,
{
    if j < kept_count(raws, opts, n - 1) {
        lemma_kept_count_onto(raws, opts, n - 1, j);
        let i = choose|i: int| 0 <= i < n - 1 && kept(opts, raws[i]) && kept_count(raws, opts, i) == j;
        assert(0 <= i < n && kept(opts, raws[i]) && kept_count(raws, opts, i) == j);
    } else {
        assert(kept(opts, raws[n - 1]) && kept_count(raws, opts, n - 1) == j);
    }
}

proof fn lemma_eligible_valid(raws: Seq<RawCommit>, opts: WindowOpts, n: int)
    requires
        0 <= n <= raws.len(),
    ensures
        forall|w: int|
            0 <= w < eligible(raws, opts, n).len() ==> {
                let e = #[trigger] eligible(raws, opts, n)[w];
                &&& 0 <= e.0 < n
                &&& kept(opts, raws[e.0])
                &&& raws[e.0].parent_count <= 1
                &&& e.1 == kept_count(raws, opts, e.0)
            },
    decreases n,
{
    if n > 0 {
        lemma_eligible_valid(raws, opts, n - 1);
    }
}

proof fn lemma_kept_count_mono(raws: Seq<RawCommit>, opts: WindowOpts, a: int, b: int)
    requires
        0 <= a <= b,
    ensures
        kept_count(raws, opts, a) <= kept_count(raws, opts, b),
    decreases b - a,
{
    if a < b {
        lemma_kept_count_mono(raws, opts, a, b - 1);
    }
}

/// The changes of the window: for each window commit in order, each path
/// of its diff with control characters stripped, paired with the commit's
/// meta index.
pub open spec fn window_changes(
    meta_idxs: Seq<int>,
    diffs: Seq<Seq<Seq<char>>>,
    k: int,
) -> Seq<(Seq<char>, int)>
    decreases k,
{
    if k <= 0 {
        Seq::empty()
    } else {
        window_changes(meta_idxs, diffs, k - 1) + diffs[k - 1].map_values(
            |p: Seq<char>| (stripped(p), meta_idxs[k - 1]),
        )
    }
}

/// The changes as (path, meta index) pairs.
pub open spec fn change_pairs(changes: Seq<FileChange>) -> Seq<(Seq<char>, int)> {
    changes.map_values(|c: FileChange| (c.path@, c.meta_idx as int))
}

/// The paths of each diff.
pub open spec fn diff_views(diffs: Seq<Vec<String>>) -> Seq<Seq<Seq<char>>> {
    diffs.map_values(|d: Vec<String>| views(d@))
}

/// The meta indices of a window.
pub open spec fn meta_indices(window: Seq<(usize, usize)>) -> Seq<int> {
    window.map_values(|p: (usize, usize)| p.1 as int)
}

/// Assembles the history from the selection and, for each commit of the
/// window in order, the paths its diff against the first parent touches.
pub fn assemble(selection: Selection, diffs: &Vec<Vec<String>>) -> (h: History)
    requires
        diffs@.len() == selection.window@.len(),
    ensures
        h.metas@ == selection.metas@,
        h.window_commits == selection.window@.len(),
        change_pairs(h.changes@) == window_changes(
            meta_indices(selection.window@),
            diff_views(diffs@),
            diffs@.len() as int,
        ),
        // recorded paths carry no control characters
        forall|k: int| 0 <= k < h.changes@.len() ==> free_of_controls((#[trigger] h.changes@[k]).path@),
{
    let mut changes: Vec<FileChange> = Vec::new();
    let mut k: usize = 0;
    while k < diffs.len()
        invariant
            k <= diffs.len(),
            diffs@.len() == selection.window@.len(),
            change_pairs(changes@) == window_changes(
                meta_indices(selection.window@),
                diff_views(diffs@),
                k as int,
            ),
            forall|q: int| 0 <= q < changes@.len() ==> free_of_controls((#[trigger] changes@[q]).path@),
        decreases diffs.len() - k,
    {
        let idx = selection.window[k].1;
        let paths = &diffs[k];
        let ghost base = change_pairs(changes@);
        let ghost dv = views(paths@);
        let mut j: usize = 0;
        while j < paths.len()
            invariant
                j <= paths.len(),
                dv == views(paths@),
                change_pairs(changes@) == base + dv.take(j as int).map_values(
                    |p: Seq<char>| (stripped(p), idx as int),
                ),
                forall|q: int| 0 <= q < changes@.len() ==> free_of_controls((#[trigger] changes@[q]).path@),
            decreases paths.len() - j,
        {
            let ghost before = change_pairs(changes@);
            proof {
                law_stripped_has_no_controls(paths@[j as int]@);
            }
            changes.push(FileChange { path: strip_controls(paths[j].as_str()), meta_idx: idx });
            proof {
                assert(change_pairs(changes@) =~= before.push((stripped(paths@[j as int]@), idx as int)));
                assert(dv.take(j + 1).map_values(|p: Seq<char>| (stripped(p), idx as int)) =~= dv.take(
                    j as int,
                ).map_values(|p: Seq<char>| (stripped(p), idx as int)).push(
                    (stripped(paths@[j as int]@), idx as int),
                ));
                assert(base + dv.take(j + 1).map_values(|p: Seq<char>| (stripped(p), idx as int))
                    =~= before.push((stripped(paths@[j as int]@), idx as int)));
            }
            j = j + 1;
        }
        proof {
            assert(dv.take(paths@.len() as int) =~= dv);
            assert(diff_views(diffs@)[k as int] == dv);
            assert(meta_indices(selection.window@)[k as int] == idx as int);
        }
        k = k + 1;
    }
    let window_commits = selection.window.len();
    History { metas: selection.metas, changes, window_commits }
}

} // verus!
