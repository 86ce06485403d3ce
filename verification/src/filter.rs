//! Noise filtering and path scoping for file-level metrics, and author
//! exclusion.
//!
//! Lockfiles, changelogs and generated code dominate raw churn lists and bury
//! the signal, so they are excluded by default; bot accounts and explicitly
//! named users can be excluded from every metric.
use vstd::prelude::*;
use crate::pattern::{
    glob_regex, glob_to_regex, regex_check, regex_compile_error, regex_compiles, regex_finds,
    regex_search,
};
use crate::text::{
    append_str, chars_eq, chars_of, contains_seq, ends_with, has_infix, has_prefix, has_suffix,
    insert_sorted_unique, join_strings, joined, lemma_strictly_sorted_unique, push_char, starts_with,
    string_of, strictly_sorted, views,
};

verus! {

/// What `str::to_lowercase` returns for a string (full Unicode lowercase
/// mapping; it depends on the string alone).
pub uninterp spec fn lowercase(s: Seq<char>) -> Seq<char>;

/// What `str::trim` returns for a string: the string without its leading
/// and trailing Unicode `White_Space` characters.
pub uninterp spec fn trimmed(s: Seq<char>) -> Seq<char>;

/// `str::to_lowercase`; its result is named by `lowercase`.
#[verifier::external_body]
fn to_lowercase(s: &str) -> (r: String)
    ensures
        r@ == lowercase(s@),
{
    s.to_lowercase()
}

/// `str::trim`, copied into a `String`; its result is named by `trimmed`.
#[verifier::external_body]
pub(crate) fn trim_str(s: &str) -> (r: String)
    ensures
        r@ == trimmed(s@),
{
    s.trim().to_string()
}

/// The characters `[bot]`.
pub open spec fn bot_suffix() -> Seq<char> {
    seq!['[', 'b', 'o', 't', ']']
}

/// The characters `*[bot]`, the summary entry for bot exclusion.
pub open spec fn bot_marker() -> Seq<char> {
    seq!['*', '[', 'b', 'o', 't', ']']
}

/// The characters `, `.
pub open spec fn comma_sep() -> Seq<char> {
    seq![',', ' ']
}

/// The exclusion key of a configured author name: trimmed, then lowercased.
pub open spec fn name_key(name: Seq<char>) -> Seq<char> {
    lowercase(trimmed(name))
}

/// Excludes commits by author: bot accounts and explicitly named users
/// (e.g. dependabot) otherwise dominate churn, ownership and velocity.
pub struct AuthorFilter {
    /// Lowercased author names to exclude, strictly sorted.
    names: Vec<String>,
    exclude_bots: bool,
}

impl AuthorFilter {
    #[verifier::type_invariant]
    spec fn sorted_names(self) -> bool {
        strictly_sorted(views(self.names@))
    }

    /// The excluded name keys, in lexicographic order.
    pub closed spec fn keys(self) -> Seq<Seq<char>> {
        views(self.names@)
    }

    /// Whether authors whose name ends in `[bot]` are excluded.
    pub closed spec fn bots(self) -> bool {
        self.exclude_bots
    }

    /// Whether this filter excludes the given author.
    pub open spec fn excludes(self, author: Seq<char>) -> bool {
        self.keys().contains(lowercase(author)) || (self.bots() && has_suffix(
            lowercase(author),
            bot_suffix(),
        ))
    }

    /// The summary parts: the excluded names in order, then `*[bot]` when
    /// bots are excluded.
    pub open spec fn summary_parts(self) -> Seq<Seq<char>> {
        if self.bots() {
            self.keys().push(bot_marker())
        } else {
            self.keys()
        }
    }

    pub fn new(names: &[String], exclude_bots: bool) -> (f: Self)
        ensures
            strictly_sorted(f.keys()),
            forall|k: Seq<char>| #[trigger] f.keys().contains(k) <==> exists|i: int|
                0 <= i < names@.len() && k == name_key(#[trigger] names@[i]@),
            f.bots() == exclude_bots,
    {
        let mut keys: Vec<String> = Vec::new();
        let mut i: usize = 0;
        while i < names.len()
            invariant
                i <= names.len(),
                strictly_sorted(views(keys@)),
                forall|k: Seq<char>| #[trigger] views(keys@).contains(k) <==> exists|j: int|
                    0 <= j < i && k == name_key(#[trigger] names@[j]@),
            decreases names.len() - i,
        {
            let t = trim_str(names[i].as_str());
            let key = to_lowercase(t.as_str());
            let ghost before = views(keys@);
            insert_sorted_unique(&mut keys, key);
            proof {
                assert forall|k: Seq<char>| #[trigger] views(keys@).contains(k) <==> exists|j: int|
                    0 <= j < i + 1 && k == name_key(#[trigger] names@[j]@) by {
                    if views(keys@).contains(k) && !before.contains(k) {
                        assert(k == name_key(names@[i as int]@));
                    }
                    if exists|j: int| 0 <= j < i + 1 && k == name_key(#[trigger] names@[j]@) {
                        let j = choose|j: int| 0 <= j < i + 1 && k == name_key(#[trigger] names@[j]@);
                        if j < i {
                            assert(before.contains(k));
                        }
                    }
                }
            }
            i = i + 1;
        }
        AuthorFilter { names: keys, exclude_bots }
    }

    pub fn excluded(&self, author: &str) -> (r: bool)
        ensures
            r == self.excludes(author@),
    {
        let lower = to_lowercase(author);
        let lv = chars_of(lower.as_str());
        let mut found = false;
        let mut i: usize = 0;
        while i < self.names.len()
            invariant
                i <= self.names.len(),
                lv@ == lowercase(author@),
                found <==> exists|j: int| 0 <= j < i && views(self.names@)[j] == lv@,
            decreases self.names.len() - i,
        {
            let nv = chars_of(self.names[i].as_str());
            assert(views(self.names@)[i as int] == self.names@[i as int]@);
            if chars_eq(&nv, &lv) {
                found = true;
            }
            i = i + 1;
        }
        assert(found <==> self.keys().contains(lv@));
        if found {
            return true;
        }
        if self.exclude_bots {
            let suffix = chars_of("[bot]");
            proof {
                reveal_strlit("[bot]");
                assert(suffix@ =~= bot_suffix());
            }
            ends_with(&lv, &suffix)
        } else {
            false
        }
    }

    /// Human-readable summary for report headers: the excluded names in
    /// order, then `*[bot]` when bots are excluded, joined with `, `; `None`
    /// when the filter excludes nothing.
    pub fn describe(&self) -> (r: Option<String>)
        ensures
            r is None <==> self.summary_parts().len() == 0,
            r matches Some(s) ==> s@ == joined(self.summary_parts(), comma_sep()),
    {
        let mut parts: Vec<String> = Vec::new();
        let mut i: usize = 0;
        while i < self.names.len()
            invariant
                i <= self.names.len(),
                views(parts@) == views(self.names@).take(i as int),
            decreases self.names.len() - i,
        {
            let c = self.names[i].clone();
            let ghost before = parts@;
            parts.push(c);
            proof {
                assert(parts@ =~= before.push(self.names@[i as int]));
                assert(views(parts@) =~= views(before).push(self.names@[i as int]@));
                assert(views(self.names@).take(i + 1) =~= views(self.names@).take(i as int).push(
                    self.names@[i as int]@,
                ));
            }
            i = i + 1;
        }
        assert(views(parts@) =~= self.keys());
        if self.exclude_bots {
            let mut marker = String::new();
            push_char(&mut marker, '*');
            append_str(&mut marker, "[bot]");
            proof {
                reveal_strlit("[bot]");
                assert(marker@ =~= bot_marker());
            }
            parts.push(marker);
            assert(views(parts@) =~= self.summary_parts());
        }
        if parts.len() == 0 {
            None
        } else {
            let sep = ", ";
            proof {
                reveal_strlit(", ");
                assert(sep@ =~= comma_sep());
            }
            Some(join_strings(&parts, sep))
        }
    }
}

impl Default for AuthorFilter {
    fn default() -> (f: Self)
        ensures
            f.keys().len() == 0,
            !f.bots(),
    {
        AuthorFilter { names: Vec::new(), exclude_bots: false }
    }
}


/// The views of a sequence of string slices.
pub open spec fn str_views(v: Seq<&str>) -> Seq<Seq<char>> {
    v.map_values(|s: &str| s@)
}

/// Lockfile basenames.
pub open spec fn lockfiles() -> Seq<Seq<char>> {
    str_views(
        seq![
            "Cargo.lock",
            "package-lock.json",
            "yarn.lock",
            "pnpm-lock.yaml",
            "bun.lockb",
            "bun.lock",
            "poetry.lock",
            "uv.lock",
            "Pipfile.lock",
            "Gemfile.lock",
            "composer.lock",
            "go.sum",
            "flake.lock",
            "packages.lock.json",
            "mix.lock",
        ],
    )
}

/// Directory prefixes of vendored, built and editor files.
pub open spec fn noisy_dirs() -> Seq<Seq<char>> {
    str_views(
        seq![
            "node_modules/",
            "vendor/",
            "dist/",
            "build/",
            "target/",
            "out/",
            ".idea/",
            ".vscode/",
            "__snapshots__/",
        ],
    )
}

/// Suffixes of minified, mapped, snapshot and generated files.
pub open spec fn noisy_suffixes() -> Seq<Seq<char>> {
    str_views(
        seq![
            ".min.js",
            ".min.css",
            ".map",
            ".snap",
            ".pb.go",
            ".pb.cc",
            ".pb.h",
            "_pb2.py",
            ".generated.ts",
            ".generated.cs",
            ".g.dart",
        ],
    )
}

fn lockfile_list() -> (v: Vec<&'static str>)
    ensures
        str_views(v@) == lockfiles(),
{
    let v = vec![
        "Cargo.lock",
        "package-lock.json",
        "yarn.lock",
        "pnpm-lock.yaml",
        "bun.lockb",
        "bun.lock",
        "poetry.lock",
        "uv.lock",
        "Pipfile.lock",
        "Gemfile.lock",
        "composer.lock",
        "go.sum",
        "flake.lock",
        "packages.lock.json",
        "mix.lock",
    ];
    assert(str_views(v@) =~= lockfiles());
    v
}

fn noisy_dir_list() -> (v: Vec<&'static str>)
    ensures
        str_views(v@) == noisy_dirs(),
{
    let v = vec![
        "node_modules/",
        "vendor/",
        "dist/",
        "build/",
        "target/",
        "out/",
        ".idea/",
        ".vscode/",
        "__snapshots__/",
    ];
    assert(str_views(v@) =~= noisy_dirs());
    v
}

fn noisy_suffix_list() -> (v: Vec<&'static str>)
    ensures
        str_views(v@) == noisy_suffixes(),
{
    let v = vec![
        ".min.js",
        ".min.css",
        ".map",
        ".snap",
        ".pb.go",
        ".pb.cc",
        ".pb.h",
        "_pb2.py",
        ".generated.ts",
        ".generated.cs",
        ".g.dart",
    ];
    assert(str_views(v@) =~= noisy_suffixes());
    v
}

/// The last `/`-separated segment of a path (`rsplit('/').next()`).
pub open spec fn basename(p: Seq<char>) -> Seq<char>
    decreases p.len(),
{
    if p.len() == 0 {
        Seq::empty()
    } else if p.last() == '/' {
        Seq::empty()
    } else {
        basename(p.drop_last()).push(p.last())
    }
}

/// `char::to_ascii_uppercase`.
pub open spec fn ascii_upper(c: char) -> char {
    if 'a' <= c && c <= 'z' {
        ((c as u32) - 32) as char
    } else {
        c
    }
}

/// The characters `CHANGELOG`.
pub open spec fn changelog() -> Seq<char> {
    seq!['C', 'H', 'A', 'N', 'G', 'E', 'L', 'O', 'G']
}

/// The basename starts with `CHANGELOG`, ignoring ASCII case.
pub open spec fn is_changelog(b: Seq<char>) -> bool {
    b.len() >= 9 && forall|k: int| 0 <= k < 9 ==> ascii_upper(#[trigger] b[k]) == changelog()[k]
}

/// Lockfiles, changelogs, vendored/build directories and generated files.
pub open spec fn is_noise_path(p: Seq<char>) -> bool {
    ||| lockfiles().contains(basename(p))
    ||| is_changelog(basename(p))
    ||| exists|i: int|
        0 <= i < noisy_dirs().len() && (has_prefix(p, #[trigger] noisy_dirs()[i]) || has_infix(
            p,
            seq!['/'] + noisy_dirs()[i],
        ))
    ||| exists|i: int| 0 <= i < noisy_suffixes().len() && has_suffix(p, #[trigger] noisy_suffixes()[i])
}

pub(crate) fn basename_of(p: &Vec<char>) -> (b: Vec<char>)
    ensures
        b@ == basename(p@),
{
    let mut b: Vec<char> = Vec::new();
    let mut i: usize = 0;
    while i < p.len()
        invariant
            i <= p.len(),
            b@ == basename(p@.take(i as int)),
        decreases p.len() - i,
    {
        assert(p@.take(i + 1).drop_last() =~= p@.take(i as int));
        if p[i] == '/' {
            b = Vec::new();
        } else {
            b.push(p[i]);
        }
        i = i + 1;
    }
    assert(p@.take(p.len() as int) =~= p@);
    b
}

fn ascii_upper_char(c: char) -> (u: char)
    ensures
        u == ascii_upper(c),
{
    if 'a' <= c && c <= 'z' {
        ((c as u8) - 32) as char
    } else {
        c
    }
}

fn changelog_prefixed(b: &Vec<char>) -> (r: bool)
    ensures
        r == is_changelog(b@),
{
    if b.len() < 9 {
        return false;
    }
    let target = chars_of("CHANGELOG");
    proof {
        reveal_strlit("CHANGELOG");
        assert(target@ =~= changelog());
    }
    let mut k: usize = 0;
    while k < 9
        invariant
            b.len() >= 9,
            target@ == changelog(),
            k <= 9,
            forall|j: int| 0 <= j < k ==> ascii_upper(#[trigger] b@[j]) == changelog()[j],
        decreases 9 - k,
    {
        if ascii_upper_char(b[k]) != target[k] {
            return false;
        }
        k = k + 1;
    }
    true
}

/// Whether a path is noise: a lockfile, a changelog, a file under a
/// vendored, build or editor directory, or a generated file.
pub fn is_noise(path: &str) -> (r: bool)
    ensures
        r == is_noise_path(path@),
{
    let p = chars_of(path);
    let base = basename_of(&p);
    let locks = lockfile_list();
    let mut i: usize = 0;
    while i < locks.len()
        invariant
            i <= locks.len(),
            str_views(locks@) == lockfiles(),
            p@ == path@,
            base@ == basename(path@),
            forall|j: int| 0 <= j < i ==> lockfiles()[j] != base@,
        decreases locks.len() - i,
    {
        let l = chars_of(locks[i]);
        assert(l@ == str_views(locks@)[i as int]);
        if chars_eq(&l, &base) {
            assert(lockfiles()[i as int] == base@);
            return true;
        }
        i = i + 1;
    }
    assert(!lockfiles().contains(base@));
    if changelog_prefixed(&base) {
        return true;
    }
    let dirs = noisy_dir_list();
    let mut i: usize = 0;
    while i < dirs.len()
        invariant
            i <= dirs.len(),
            str_views(dirs@) == noisy_dirs(),
            p@ == path@,
            forall|j: int|
                0 <= j < i ==> !(has_prefix(p@, #[trigger] noisy_dirs()[j]) || has_infix(
                    p@,
                    seq!['/'] + noisy_dirs()[j],
                )),
        decreases dirs.len() - i,
    {
        let d = chars_of(dirs[i]);
        let mut slash_d: Vec<char> = Vec::new();
        slash_d.push('/');
        let mut k: usize = 0;
        while k < d.len()
            invariant
                k <= d.len(),
                slash_d@ == seq!['/'] + d@.take(k as int),
            decreases d.len() - k,
        {
            slash_d.push(d[k]);
            assert(d@.take(k + 1) =~= d@.take(k as int).push(d@[k as int]));
            k = k + 1;
        }
        assert(d@.take(d.len() as int) =~= d@);
        assert(d@ == str_views(dirs@)[i as int]);
        assert(d@ == noisy_dirs()[i as int]);
        if starts_with(&p, &d) || contains_seq(&p, &slash_d) {
            assert(has_prefix(p@, noisy_dirs()[i as int]) || has_infix(
                p@,
                seq!['/'] + noisy_dirs()[i as int],
            ));
            return true;
        }
        i = i + 1;
    }
    let sufs = noisy_suffix_list();
    let mut i: usize = 0;
    while i < sufs.len()
        invariant
            i <= sufs.len(),
            str_views(sufs@) == noisy_suffixes(),
            p@ == path@,
            forall|j: int| 0 <= j < i ==> !has_suffix(p@, #[trigger] noisy_suffixes()[j]),
        decreases sufs.len() - i,
    {
        let s = chars_of(sufs[i]);
        assert(s@ == str_views(sufs@)[i as int]);
        if ends_with(&p, &s) {
            assert(has_suffix(p@, noisy_suffixes()[i as int]));
            return true;
        }
        i = i + 1;
    }
    false
}


/// `s` without its leading `/` characters.
pub open spec fn strip_leading_slashes(s: Seq<char>) -> Seq<char>
    decreases s.len(),
{
    if s.len() > 0 && s[0] == '/' {
        strip_leading_slashes(s.drop_first())
    } else {
        s
    }
}

/// `s` without its trailing `/` characters.
pub open spec fn strip_trailing_slashes(s: Seq<char>) -> Seq<char>
    decreases s.len(),
{
    if s.len() > 0 && s.last() == '/' {
        strip_trailing_slashes(s.drop_last())
    } else {
        s
    }
}

/// `str::trim_matches('/')`.
pub open spec fn trim_slashes(s: Seq<char>) -> Seq<char> {
    strip_trailing_slashes(strip_leading_slashes(s))
}

/// `str::trim_start_matches("./")`: every leading `./` removed.
pub open spec fn trim_dot_slash(s: Seq<char>) -> Seq<char>
    decreases s.len(),
{
    if s.len() >= 2 && s[0] == '.' && s[1] == '/' {
        trim_dot_slash(s.subrange(2, s.len() as int))
    } else {
        s
    }
}

/// The normalized scope prefix: `/` trimmed from both ends, then one `/`
/// appended; `None` when nothing remains.
pub open spec fn normalized_scope(scope: Option<String>) -> Option<Seq<char>> {
    match scope {
        Some(s) => if trim_slashes(s@).len() == 0 {
            None
        } else {
            Some(trim_slashes(s@).push('/'))
        },
        None => None,
    }
}

/// The anchored regular expression of an `--exclude-path` glob.
pub open spec fn exclusion_regex(glob: Seq<char>) -> Seq<char> {
    glob_regex(trim_dot_slash(glob))
}

pub(crate) fn trim_slashes_of(s: &str) -> (t: Vec<char>)
    ensures
        t@ == trim_slashes(s@),
{
    let v = chars_of(s);
    let mut start: usize = 0;
    assert(v@.subrange(0, v.len() as int) =~= v@);
    while start < v.len() && v[start] == '/'
        invariant
            start <= v.len(),
            strip_leading_slashes(v@) == strip_leading_slashes(v@.subrange(start as int, v.len() as int)),
        decreases v.len() - start,
    {
        assert(v@.subrange(start + 1, v.len() as int) =~= v@.subrange(start as int, v.len() as int).drop_first());
        start = start + 1;
    }
    let ghost lead = v@.subrange(start as int, v.len() as int);
    assert(strip_leading_slashes(lead) == lead);
    let mut end: usize = v.len();
    while end > start && v[end - 1] == '/'
        invariant
            start <= end <= v.len(),
            strip_trailing_slashes(lead) == strip_trailing_slashes(v@.subrange(start as int, end as int)),
        decreases end,
    {
        assert(v@.subrange(start as int, end - 1) =~= v@.subrange(start as int, end as int).drop_last());
        end = end - 1;
    }
    let mut t: Vec<char> = Vec::new();
    let mut k: usize = start;
    while k < end
        invariant
            start <= k <= end,
            end <= v.len(),
            t@ == v@.subrange(start as int, k as int),
        decreases end - k,
    {
        t.push(v[k]);
        assert(v@.subrange(start as int, k + 1) =~= v@.subrange(start as int, k as int).push(v@[k as int]));
        k = k + 1;
    }
    assert(strip_trailing_slashes(t@) == t@);
    t
}

fn trim_dot_slash_of(s: &str) -> (t: String)
    ensures
        t@ == trim_dot_slash(s@),
{
    let v = chars_of(s);
    let mut start: usize = 0;
    assert(v@.subrange(0, v.len() as int) =~= v@);
    while start < v.len() && v.len() - start >= 2 && v[start] == '.' && v[start + 1] == '/'
        invariant
            start <= v.len(),
            trim_dot_slash(v@) == trim_dot_slash(v@.subrange(start as int, v.len() as int)),
        decreases v.len() - start,
    {
        assert(v@.subrange(start as int, v.len() as int).subrange(2, v.len() - start) =~= v@.subrange(start + 2, v.len() as int));
        start = start + 2;
    }
    let mut t: Vec<char> = Vec::new();
    let mut k: usize = start;
    while k < v.len()
        invariant
            start <= k <= v.len(),
            t@ == v@.subrange(start as int, k as int),
        decreases v.len() - k,
    {
        t.push(v[k]);
        assert(v@.subrange(start as int, k + 1) =~= v@.subrange(start as int, k as int).push(v@[k as int]));
        k = k + 1;
    }
    assert(t@ =~= v@.subrange(start as int, v.len() as int));
    string_of(&t)
}

/// An `--exclude-path` glob whose regular expression was refused.
#[derive(Debug)]
pub struct PatternError {
    /// The glob, with leading `./` removed.
    pub pattern: String,
    /// The regular-expression engine's explanation.
    pub detail: String,
}

impl PatternError {
    /// `invalid --exclude-path '<pattern>': <detail>`.
    pub fn message(&self) -> (m: String)
        ensures
            m@ == "invalid --exclude-path '"@ + self.pattern@ + "': "@ + self.detail@,
    {
        let mut m = String::new();
        append_str(&mut m, "invalid --exclude-path '");
        append_str(&mut m, self.pattern.as_str());
        append_str(&mut m, "': ");
        append_str(&mut m, self.detail.as_str());
        m
    }
}

/// Path scoping and exclusion for file-level metrics.
pub struct PathFilter {
    /// Prefix relative to the repo root, always ending in '/', e.g. "src/".
    pub scope: Option<String>,
    pub use_default_filters: bool,
    /// User exclusion patterns, as the regular expressions compiled from
    /// their globs.
    excludes: Vec<String>,
}

impl PathFilter {
    /// The regular expressions of the exclusion patterns, in order.
    pub closed spec fn exclusions(self) -> Seq<Seq<char>> {
        views(self.excludes@)
    }

    /// The scope prefix.
    pub closed spec fn scope_prefix(self) -> Option<Seq<char>> {
        match self.scope {
            Some(s) => Some(s@),
            None => None,
        }
    }

    /// Whether the default noise filters are on.
    pub closed spec fn noise_filtered(self) -> bool {
        self.use_default_filters
    }

    /// Whether this filter lets a path through: inside the scope, matched by
    /// no exclusion, and not noise when the default filters are on.
    pub open spec fn admits(self, path: Seq<char>) -> bool {
        &&& (self.scope_prefix() matches Some(s) ==> has_prefix(path, s))
        &&& !(exists|k: int|
            0 <= k < self.exclusions().len() && regex_finds(#[trigger] self.exclusions()[k], path))
        &&& !(self.noise_filtered() && is_noise_path(path))
    }

    pub fn new(scope: Option<String>, use_default_filters: bool) -> (f: Self)
        ensures
            f.scope_prefix() == normalized_scope(scope),
            f.noise_filtered() == use_default_filters,
            f.exclusions().len() == 0,
    {
        let scope = match scope {
            Some(s) => {
                let mut t = trim_slashes_of(s.as_str());
                if t.len() == 0 {
                    None
                } else {
                    t.push('/');
                    Some(string_of(&t))
                }
            },
            None => None,
        };
        let f = PathFilter { scope, use_default_filters, excludes: Vec::new() };
        assert(f.exclusions() =~= Seq::<Seq<char>>::empty());
        f
    }

    /// Adds user exclusion patterns. Globs: `*` matches any run, `?` one
    /// character; a trailing `/` matches the whole subtree (`docs/`). Leading
    /// `./` is ignored. Fails on the first pattern whose regular expression
    /// does not compile.
    pub fn with_excludes(self, patterns: &[String]) -> (r: Result<Self, PatternError>)
        ensures
            r is Ok <==> forall|k: int|
                0 <= k < patterns@.len() ==> regex_compiles(exclusion_regex(#[trigger] patterns@[k]@)),
            r matches Ok(f) ==> {
                &&& f.scope_prefix() == self.scope_prefix()
                &&& f.noise_filtered() == self.noise_filtered()
                &&& f.exclusions() == self.exclusions() + patterns@.map_values(
                    |p: String| exclusion_regex(p@),
                )
            },
            r matches Err(e) ==> exists|k: int|
                0 <= k < patterns@.len() && (forall|j: int|
                    0 <= j < k ==> regex_compiles(exclusion_regex(#[trigger] patterns@[j]@)))
                    && e.pattern@ == trim_dot_slash(patterns@[k]@) && regex_compile_error(
                    exclusion_regex(patterns@[k]@),
                ) == Some(e.detail@),
    {
        let mut f = self;
        let ghost start = f.exclusions();
        let mut i: usize = 0;
        while i < patterns.len()
            invariant
                i <= patterns.len(),
                f.scope == self.scope,
                f.use_default_filters == self.use_default_filters,
                start == self.exclusions(),
                f.exclusions() == start + patterns@.take(i as int).map_values(
                    |p: String| exclusion_regex(p@),
                ),
                forall|j: int| 0 <= j < i ==> regex_compiles(exclusion_regex(#[trigger] patterns@[j]@)),
            decreases patterns.len() - i,
        {
            let glob = trim_dot_slash_of(patterns[i].as_str());
            let re = glob_to_regex(glob.as_str());
            match regex_check(re.as_str()) {
                Ok(()) => {},
                Err(detail) => {
                    return Err(PatternError { pattern: glob, detail });
                },
            }
            let ghost before = f.exclusions();
            f.excludes.push(re);
            proof {
                assert(f.exclusions() =~= before.push(exclusion_regex(patterns@[i as int]@)));
                assert(patterns@.take(i + 1).map_values(|p: String| exclusion_regex(p@))
                    =~= patterns@.take(i as int).map_values(|p: String| exclusion_regex(p@)).push(
                    exclusion_regex(patterns@[i as int]@),
                ));
            }
            i = i + 1;
        }
        assert(patterns@.take(patterns.len() as int) =~= patterns@);
        Ok(f)
    }

    pub fn included(&self, path: &str) -> (r: bool)
        ensures
            r == self.admits(path@),
    {
        if let Some(scope) = &self.scope {
            let p = chars_of(path);
            let sc = chars_of(scope.as_str());
            if !starts_with(&p, &sc) {
                return false;
            }
        }
        let mut k: usize = 0;
        while k < self.excludes.len()
            invariant
                k <= self.excludes.len(),
                forall|j: int| 0 <= j < k ==> !regex_finds(#[trigger] self.exclusions()[j], path@),
            decreases self.excludes.len() - k,
        {
            assert(self.exclusions()[k as int] == self.excludes@[k as int]@);
            match regex_search(self.excludes[k].as_str(), path) {
                Some(true) => {
                    return false;
                },
                _ => {},
            }
            k = k + 1;
        }
        if self.use_default_filters && is_noise(path) {
            return false;
        }
        true
    }

    /// True when the user narrowed the path set (scope or explicit
    /// excludes); the default noise filters alone don't count.
    pub fn is_restrictive(&self) -> (r: bool)
        ensures
            r == (self.scope_prefix().is_some() || self.exclusions().len() > 0),
    {
        self.scope.is_some() || self.excludes.len() > 0
    }
}


// ---------------------------------------------------------------------
// Laws of the filters
// ---------------------------------------------------------------------

/// Law: adding exclusion patterns only narrows a path filter. When
/// `with_excludes` succeeds, a path passes the new filter exactly when it
/// passed the old one and none of the new patterns matches it; the filter
/// becomes restrictive as soon as one pattern was added.
pub proof fn law_added_exclusions_narrow(f: PathFilter, patterns: Seq<String>, g: PathFilter, path: Seq<char>)
    requires
        g.scope_prefix() == f.scope_prefix(),
        g.noise_filtered() == f.noise_filtered(),
        g.exclusions() == f.exclusions() + patterns.map_values(|p: String| exclusion_regex(p@)),
    ensures
        g.admits(path) == (f.admits(path) && forall|k: int|
            0 <= k < patterns.len() ==> !regex_finds(exclusion_regex(#[trigger] patterns[k]@), path)),
        (g.scope_prefix().is_some() || g.exclusions().len() > 0) == (f.scope_prefix().is_some()
            || f.exclusions().len() > 0 || patterns.len() > 0),
{
    let old = f.exclusions();
    let added = patterns.map_values(|p: String| exclusion_regex(p@));
    let all = g.exclusions();
    if exists|k: int| 0 <= k < all.len() && regex_finds(#[trigger] all[k], path) {
        let k = choose|k: int| 0 <= k < all.len() && regex_finds(#[trigger] all[k], path);
        if k < old.len() {
            assert(all[k] == old[k]);
        } else {
            assert(all[k] == added[k - old.len()]);
            assert(!forall|j: int|
                0 <= j < patterns.len() ==> !regex_finds(exclusion_regex(#[trigger] patterns[j]@), path));
        }
    }
    if exists|k: int| 0 <= k < old.len() && regex_finds(#[trigger] old[k], path) {
        let k = choose|k: int| 0 <= k < old.len() && regex_finds(#[trigger] old[k], path);
        assert(all[k] == old[k]);
    }
    if !forall|j: int| 0 <= j < patterns.len() ==> !regex_finds(exclusion_regex(#[trigger] patterns[j]@), path) {
        let j = choose|j: int| 0 <= j < patterns.len() && regex_finds(exclusion_regex(#[trigger] patterns[j]@), path);
        assert(all[old.len() + j] == added[j]);
    }
}


/// Law: a filter with no names and without bot exclusion (the default)
/// excludes nobody.
pub proof fn law_empty_author_filter_excludes_nobody(f: AuthorFilter, author: Seq<char>)
    requires
        f.keys().len() == 0,
        !f.bots(),
    ensures
        !f.excludes(author),
{
}

/// Law: author exclusion ignores case: two names with the same lowercase
/// form are excluded alike.
pub proof fn law_author_exclusion_ignores_case(f: AuthorFilter, a: Seq<char>, b: Seq<char>)
    requires
        lowercase(a) == lowercase(b),
    ensures
        f.excludes(a) == f.excludes(b),
{
}

/// Law: with bot exclusion on, every author whose lowercased name ends in
/// `[bot]` is excluded.
pub proof fn law_bots_excluded(f: AuthorFilter, author: Seq<char>)
    requires
        f.bots(),
        has_suffix(lowercase(author), bot_suffix()),
    ensures
        f.excludes(author),
{
}

/// Law: with the default filters on, noise is never admitted.
pub proof fn law_noise_never_admitted(f: PathFilter, path: Seq<char>)
    requires
        f.noise_filtered(),
        is_noise_path(path),
    ensures
        !f.admits(path),
{
}

/// Law: a path outside the scope is never admitted.
pub proof fn law_scope_confines(f: PathFilter, path: Seq<char>)
    requires
        f.scope_prefix() is Some,
        !has_prefix(path, f.scope_prefix()->0),
    ensures
        !f.admits(path),
{
}

proof fn lemma_strip_leading(s: Seq<char>)
    ensures
        strip_leading_slashes(s).len() == 0 || strip_leading_slashes(s)[0] != '/',
    decreases s.len(),
{
    if s.len() > 0 && s[0] == '/' {
        lemma_strip_leading(s.drop_first());
    }
}

proof fn lemma_strip_trailing(t: Seq<char>)
    requires
        t.len() > 0,
        t[0] != '/',
    ensures
        strip_trailing_slashes(t).len() > 0,
        strip_trailing_slashes(t)[0] == t[0],
        strip_trailing_slashes(t).last() != '/',
    decreases t.len(),
{
    if t.last() == '/' {
        assert(t.len() > 1);
        lemma_strip_trailing(t.drop_last());
    }
}

/// Law: a normalized scope is a relative prefix ending in exactly one `/`:
/// it does not start with `/`, and the character before its final `/` is
/// not a `/` either, so `src` scopes `src/main.rs` but not `srcs/decoy.rs`.
pub proof fn law_scope_is_one_directory_prefix(scope: Option<String>)
    ensures
        normalized_scope(scope) matches Some(s) ==> {
            &&& s.len() >= 2
            &&& s[0] != '/'
            &&& s.last() == '/'
            &&& s[s.len() - 2] != '/'
        },
{
    if let Some(raw) = scope {
        let lead = strip_leading_slashes(raw@);
        lemma_strip_leading(raw@);
        if lead.len() > 0 {
            lemma_strip_trailing(lead);
        } else {
            assert(strip_trailing_slashes(lead) == lead);
        }
    }
}


/// The exclusion keys of a list of configured names.
pub open spec fn name_keys_of(names: Seq<String>) -> Set<Seq<char>> {
    Set::new(|k: Seq<char>| exists|i: int| 0 <= i < names.len() && k == name_key(#[trigger] names[i]@))
}

/// Law: the excluded names of a filter, and so its summary, depend only on
/// which names were given, not on their order or repetition.
pub proof fn law_author_filter_order_independent(names1: Seq<String>, names2: Seq<String>, f1: AuthorFilter, f2: AuthorFilter)
    requires
        strictly_sorted(f1.keys()),
        strictly_sorted(f2.keys()),
        forall|k: Seq<char>| #[trigger] f1.keys().contains(k) <==> exists|i: int|
            0 <= i < names1.len() && k == name_key(#[trigger] names1[i]@),
        forall|k: Seq<char>| #[trigger] f2.keys().contains(k) <==> exists|i: int|
            0 <= i < names2.len() && k == name_key(#[trigger] names2[i]@),
        name_keys_of(names1) == name_keys_of(names2),
    ensures
        f1.keys() == f2.keys(),
{
    assert forall|k: Seq<char>| f1.keys().contains(k) <==> f2.keys().contains(k) by {
        assert(name_keys_of(names1).contains(k) == name_keys_of(names2).contains(k));
        if f1.keys().contains(k) {
            let i = choose|i: int| 0 <= i < names1.len() && k == name_key(#[trigger] names1[i]@);
            assert(name_keys_of(names1).contains(k));
            let j = choose|j: int| 0 <= j < names2.len() && k == name_key(#[trigger] names2[j]@);
            assert(f2.keys().contains(k));
        }
        if f2.keys().contains(k) {
            let i = choose|i: int| 0 <= i < names2.len() && k == name_key(#[trigger] names2[i]@);
            assert(name_keys_of(names2).contains(k));
            let j = choose|j: int| 0 <= j < names1.len() && k == name_key(#[trigger] names1[j]@);
            assert(f1.keys().contains(k));
        }
    }
    lemma_strictly_sorted_unique(f1.keys(), f2.keys());
}

} // verus!
