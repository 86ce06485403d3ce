//! Regular-expression matching (through the `regex` crate) and the
//! conversion of exclusion globs into regular expressions.
use vstd::prelude::*;
use crate::text::{append_str, push_char};

verus! {

/// What `regex::Regex::new` reports for a pattern: `None` when it compiles,
/// otherwise the text of its error.
pub uninterp spec fn regex_compile_error(pattern: Seq<char>) -> Option<Seq<char>>;

/// What `regex::Regex::is_match` returns for the regex compiled from
/// `pattern` on `haystack`.
pub uninterp spec fn regex_is_match(pattern: Seq<char>, haystack: Seq<char>) -> bool;

/// `pattern` compiles as a regular expression.
pub open spec fn regex_compiles(pattern: Seq<char>) -> bool {
    regex_compile_error(pattern) is None
}

/// `pattern` compiles and matches somewhere in `haystack`.
pub open spec fn regex_finds(pattern: Seq<char>, haystack: Seq<char>) -> bool {
    regex_compiles(pattern) && regex_is_match(pattern, haystack)
}

/// `regex::Regex::new`. The claim: it succeeds exactly when
/// `regex_compile_error` is `None`, and otherwise the error's text is the
/// named one.
#[verifier::external_body]
pub(crate) fn regex_check(pattern: &str) -> (r: Result<(), String>)
    ensures
        match r {
            Ok(()) => regex_compile_error(pattern@) is None,
            Err(msg) => regex_compile_error(pattern@) == Some(msg@),
        },
{
    match regex::Regex::new(pattern) {
        Ok(_) => Ok(()),
        Err(e) => Err(e.to_string()),
    }
}

/// `regex::Regex::new` followed by `regex::Regex::is_match`. The claim: the
/// result is `None` exactly when the pattern does not compile, and otherwise
/// the named match result.
#[verifier::external_body]
pub(crate) fn regex_search(pattern: &str, haystack: &str) -> (r: Option<bool>)
    ensures
        r is None <==> !regex_compiles(pattern@),
        r matches Some(b) ==> b == regex_is_match(pattern@, haystack@),
{
    match regex::Regex::new(pattern) {
        Ok(re) => Some(re.is_match(haystack)),
        Err(_) => None,
    }
}

/// `regex_syntax::is_meta_character`: the characters with significance in
/// a regular expression.
pub open spec fn is_meta(c: char) -> bool {
    c == '\\' || c == '.' || c == '+' || c == '*' || c == '?' || c == '(' || c == ')' || c == '|'
        || c == '[' || c == ']' || c == '{' || c == '}' || c == '^' || c == '$' || c == '#' || c
        == '&' || c == '-' || c == '~'
}

/// `regex::escape`: every meta character preceded by a backslash.
pub open spec fn regex_escaped(s: Seq<char>) -> Seq<char>
    decreases s.len(),
{
    if s.len() == 0 {
        Seq::empty()
    } else if is_meta(s.last()) {
        regex_escaped(s.drop_last()).push('\\').push(s.last())
    } else {
        regex_escaped(s.drop_last()).push(s.last())
    }
}

fn is_meta_char(c: char) -> (b: bool)
    ensures
        b == is_meta(c),
{
    c == '\\' || c == '.' || c == '+' || c == '*' || c == '?' || c == '(' || c == ')' || c == '|'
        || c == '[' || c == ']' || c == '{' || c == '}' || c == '^' || c == '$' || c == '#' || c
        == '&' || c == '-' || c == '~'
}

/// Escapes the meta characters of `s` with a backslash, as `regex::escape`
/// does (its whole behaviour is `regex_escaped`).
fn regex_escape(s: &str) -> (r: String)
    ensures
        r@ == regex_escaped(s@),
{
    let mut r = String::new();
    for c in it: s.chars()
        invariant
            it.seq() == s@,
            r@ == regex_escaped(s@.take(it.index() as int)),
    {
        proof {
            let t = s@.take(it.index() + 1);
            assert(t.drop_last() =~= s@.take(it.index() as int));
            assert(t.last() == c);
        }
        if is_meta_char(c) {
            push_char(&mut r, '\\');
        }
        push_char(&mut r, c);
    }
    proof {
        assert(s@.take(s@.len() as int) =~= s@);
    }
    r
}

/// The regular-expression text for one glob character: `*` matches any
/// run, `?` one character, anything else itself.
pub open spec fn glob_piece(c: char) -> Seq<char> {
    if c == '*' {
        seq!['.', '*']
    } else if c == '?' {
        seq!['.']
    } else {
        regex_escaped(seq![c])
    }
}

/// The converted glob characters, concatenated.
pub open spec fn glob_body(p: Seq<char>) -> Seq<char>
    decreases p.len(),
{
    if p.len() == 0 {
        Seq::empty()
    } else {
        glob_body(p.drop_last()) + glob_piece(p.last())
    }
}

/// The anchored regular expression for an exclusion glob; a glob ending in
/// `/` is left open at the end so that it matches the whole subtree.
pub open spec fn glob_regex(p: Seq<char>) -> Seq<char> {
    if p.len() > 0 && p.last() == '/' {
        seq!['^'] + glob_body(p)
    } else {
        seq!['^'] + glob_body(p) + seq!['$']
    }
}

/// Converts an exclusion glob into an anchored regular expression.
pub fn glob_to_regex(pattern: &str) -> (re: String)
    ensures
        re@ == glob_regex(pattern@),
{
    let mut re = String::new();
    push_char(&mut re, '^');
    let mut last: char = ' ';
    let mut seen = false;
    for c in it: pattern.chars()
        invariant
            it.seq() == pattern@,
            seen <==> it.index() > 0,
            re@ == seq!['^'] + glob_body(pattern@.take(it.index() as int)),
            it.index() > 0 ==> last == pattern@[it.index() - 1],
    {
        let ghost before = re@;
        proof {
            assert(pattern@.take(it.index() + 1).drop_last() =~= pattern@.take(it.index() as int));
        }
        if c == '*' {
            push_char(&mut re, '.');
            push_char(&mut re, '*');
        } else if c == '?' {
            push_char(&mut re, '.');
        } else {
            let mut one = String::new();
            push_char(&mut one, c);
            let esc = regex_escape(one.as_str());
            proof {
                assert(seq![c].drop_last() =~= Seq::<char>::empty());
                assert(one@ =~= seq![c]);
            }
            append_str(&mut re, esc.as_str());
        }
        assert(re@ =~= before + glob_piece(c));
        last = c;
        seen = true;
    }
    proof {
        assert(pattern@.take(pattern@.len() as int) =~= pattern@);
    }
    if !seen || last != '/' {
        push_char(&mut re, '$');
    }
    re
}


/// Law: a glob without wildcards becomes the anchored, escaped literal:
/// every regular-expression meta character of it is matched literally.
pub proof fn law_literal_glob_is_escaped(p: Seq<char>)
    requires
        forall|i: int| 0 <= i < p.len() ==> #[trigger] p[i] != '*' && p[i] != '?',
    ensures
        glob_body(p) == regex_escaped(p),
    decreases p.len(),
{
    if p.len() > 0 {
        let q = p.drop_last();
        assert forall|i: int| 0 <= i < q.len() implies #[trigger] q[i] != '*' && q[i] != '?' by {
            assert(q[i] == p[i]);
        }
        law_literal_glob_is_escaped(q);
        let c = p.last();
        assert(p[p.len() - 1] == c);
        assert(seq![c].drop_last() =~= Seq::<char>::empty());
        assert(seq![c].last() == c);
        assert(regex_escaped(Seq::<char>::empty()) == Seq::<char>::empty());
        assert(regex_escaped(seq![c]) == if is_meta(c) {
            regex_escaped(seq![c].drop_last()).push('\\').push(c)
        } else {
            regex_escaped(seq![c].drop_last()).push(c)
        });
        if is_meta(c) {
            assert(regex_escaped(seq![c]) =~= seq!['\\', c]);
            assert(regex_escaped(p) =~= regex_escaped(q) + seq!['\\', c]);
        } else {
            assert(regex_escaped(seq![c]) =~= seq![c]);
            assert(regex_escaped(p) =~= regex_escaped(q) + seq![c]);
        }
    }
}

} // verus!
