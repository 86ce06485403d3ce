//! Command-line options and the decisions taken from them.
use vstd::prelude::*;
use crate::filter::{basename, trim_slashes};
use crate::text::{append_str, chars_of, decimal, decimal_string, string_of};

verus! {

/// The options of the command line (parsed in the application).
pub struct Cli {
    /// Number of recent non-merge commits to analyze for file-level metrics
    pub commits: Option<usize>,
    /// Restrict file-level metrics to commits from the last N days
    pub days: Option<u32>,
    /// Only count paths under this prefix, relative to the repo root
    pub path: Option<String>,
    /// Don't automatically scope to the current subdirectory
    pub no_auto_scope: bool,
    /// Include lockfiles, changelogs, vendored and generated files
    pub no_default_filters: bool,
    /// Exclude paths matching these globs
    pub exclude_path: Vec<String>,
    /// Exclude commits by these authors (case-insensitive)
    pub exclude_author: Vec<String>,
    /// Exclude commits by bot accounts (names ending in `[bot]`)
    pub exclude_bots: bool,
    /// Maximum rows per table
    pub top: usize,
    /// Also write the report to a file; format chosen by extension
    pub export: Option<String>,
    /// Repository location
    pub repo: String,
}

/// The format of an exported report.
#[derive(PartialEq, Eq, Clone, Copy, Debug)]
pub enum ExportFormat {
    Markdown,
    Html,
}

/// The default commit cap when neither `-n` nor `--days` is given.
pub const DEFAULT_MAX_COMMITS: usize = 100;

/// The extension of the last path component: the text after its last `.`,
/// where that `.` is not the component's first character.
pub open spec fn extension(path: Seq<char>) -> Option<Seq<char>> {
    let name = basename(path);
    if exists|i: int| 1 <= i < name.len() && name[i] == '.' {
        let i = choose|i: int|
            1 <= i < name.len() && name[i] == '.' && forall|j: int|
                i < j < name.len() ==> name[j] != '.';
        Some(name.subrange(i + 1, name.len() as int))
    } else {
        None
    }
}

/// `.html` and `.htm` files get HTML, everything else Markdown.
pub open spec fn format_for(path: Seq<char>) -> ExportFormat {
    match extension(path) {
        Some(e) => if e == seq!['h', 't', 'm', 'l'] || e == seq!['h', 't', 'm'] {
            ExportFormat::Html
        } else {
            ExportFormat::Markdown
        },
        None => ExportFormat::Markdown,
    }
}

impl Cli {
    /// Effective commit-count cap for the analysis window: `-n` when given,
    /// unbounded with `--days` alone, 100 otherwise.
    pub fn max_commits(&self) -> (n: usize)
        ensures
            n == match (self.commits, self.days) {
                (Some(n), _) => n,
                (None, Some(_)) => usize::MAX,
                (None, None) => 100,
            },
    {
        match (self.commits, self.days) {
            (Some(n), _) => n,
            (None, Some(_)) => usize::MAX,
            (None, None) => DEFAULT_MAX_COMMITS,
        }
    }

    /// The path scope: `--path` with `/` trimmed from both ends; otherwise
    /// the current subdirectory unless auto-scoping is off; `None` when that
    /// leaves nothing.
    pub fn scope(&self, cwd_scope: Option<String>) -> (r: Option<String>)
        ensures
            ({
                let chosen: Option<Seq<char>> = match (self.path, self.no_auto_scope) {
                    (Some(p), _) => Some(trim_slashes(p@)),
                    (None, false) => match cwd_scope {
                        Some(c) => Some(c@),
                        None => None,
                    },
                    (None, true) => None,
                };
                match r {
                    Some(s) => chosen == Some(s@) && s@.len() > 0,
                    None => chosen is None || chosen == Some(Seq::<char>::empty()),
                }
            }),
    {
        let chosen: Option<String> = match &self.path {
            Some(p) => {
                let t = crate::filter::trim_slashes_of(p.as_str());
                Some(string_of(&t))
            },
            None => if !self.no_auto_scope {
                cwd_scope
            } else {
                None
            },
        };
        match chosen {
            Some(s) => {
                let v = chars_of(s.as_str());
                if v.len() == 0 {
                    None
                } else {
                    Some(s)
                }
            },
            None => None,
        }
    }
}

/// The report-header description of the analysis window.
pub open spec fn window_description(days: Option<u32>, commits: Option<usize>, window_commits: usize) -> Seq<char> {
    match (days, commits) {
        (Some(d), Some(n)) => "last "@ + decimal(d as nat) + " days (max "@ + decimal(n as nat)
            + " commits)"@,
        (Some(d), None) => "last "@ + decimal(d as nat) + " days ("@ + decimal(window_commits as nat)
            + " commits)"@,
        (None, _) => "last "@ + decimal(window_commits as nat) + " non-merge commits"@,
    }
}

/// Describes the analysis window: `last D days (max N commits)`,
/// `last D days (W commits)` or `last W non-merge commits`.
pub fn window_desc(days: Option<u32>, commits: Option<usize>, window_commits: usize) -> (s: String)
    ensures
        s@ == window_description(days, commits, window_commits),
{
    let mut s = String::new();
    append_str(&mut s, "last ");
    match (days, commits) {
        (Some(d), Some(n)) => {
            append_str(&mut s, decimal_string(d as u128).as_str());
            append_str(&mut s, " days (max ");
            append_str(&mut s, decimal_string(n as u128).as_str());
            append_str(&mut s, " commits)");
        },
        (Some(d), None) => {
            append_str(&mut s, decimal_string(d as u128).as_str());
            append_str(&mut s, " days (");
            append_str(&mut s, decimal_string(window_commits as u128).as_str());
            append_str(&mut s, " commits)");
        },
        (None, _) => {
            append_str(&mut s, decimal_string(window_commits as u128).as_str());
            append_str(&mut s, " non-merge commits");
        },
    }
    s
}

/// The format of an export destination, chosen by its extension.
pub fn export_format(path: &str) -> (f: ExportFormat)
    ensures
        f == format_for(path@),
{
    let p = chars_of(path);
    let name = crate::filter::basename_of(&p);
    // position of the last '.' that is not the first character
    let mut dot: usize = 0;
    let mut i: usize = 1;
    while i < name.len()
        invariant
            1 <= i <= name.len() || (name.len() == 0 && i == 1),
            dot == 0 || (1 <= dot < i && name@[dot as int] == '.'),
            forall|j: int| dot < j < i && j >= 1 ==> name@[j] != '.',
            dot == 0 ==> forall|j: int| 1 <= j < i ==> name@[j] != '.',
        decreases name.len() - i,
    {
        if name[i] == '.' {
            dot = i;
        }
        i = i + 1;
    }
    if dot == 0 {
        assert(!exists|j: int| 1 <= j < name@.len() && name@[j] == '.');
        return ExportFormat::Markdown;
    }
    let ghost k = choose|k: int|
        1 <= k < name@.len() && name@[k] == '.' && forall|j: int| k < j < name@.len() ==> name@[j] != '.';
    assert(k == dot) by {
        assert(1 <= dot < name@.len() && name@[dot as int] == '.' && forall|j: int|
            dot < j < name@.len() ==> name@[j] != '.');
        if k < dot {
        } else if k > dot {
        }
    }
    let n = name.len() - dot - 1;
    if n == 4 && name[dot + 1] == 'h' && name[dot + 2] == 't' && name[dot + 3] == 'm' && name[dot + 4] == 'l' {
        assert(name@.subrange(dot + 1, name@.len() as int) =~= seq!['h', 't', 'm', 'l']);
        ExportFormat::Html
    } else if n == 3 && name[dot + 1] == 'h' && name[dot + 2] == 't' && name[dot + 3] == 'm' {
        assert(name@.subrange(dot + 1, name@.len() as int) =~= seq!['h', 't', 'm']);
        ExportFormat::Html
    } else {
        let ghost e = name@.subrange(dot + 1, name@.len() as int);
        assert(e != seq!['h', 't', 'm', 'l']) by {
            if e == seq!['h', 't', 'm', 'l'] {
                assert(e.len() == 4);
                assert(e[0] == name@[dot + 1]);
                assert(e[3] == name@[dot + 4]);
            }
        }
        assert(e != seq!['h', 't', 'm']) by {
            if e == seq!['h', 't', 'm'] {
                assert(e.len() == 3);
                assert(e[0] == name@[dot + 1]);
                assert(e[2] == name@[dot + 3]);
            }
        }
        ExportFormat::Markdown
    }
}

} // verus!
