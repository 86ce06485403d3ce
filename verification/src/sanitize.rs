//! Sanitization of repository-derived strings.
//!
//! Commit messages, author names and file paths are attacker-controlled when
//! scanning an untrusted repository. Control characters are stripped at
//! ingestion so that no rendered value or aggregation key can carry ANSI/OSC
//! escape sequences; the Markdown and HTML exporters additionally escape their
//! metacharacters at the presentation layer.
use vstd::prelude::*;
use crate::text::push_char;

verus! {

/// `char::is_control`: the Unicode general category Cc, that is
/// U+0000..=U+001F and U+007F..=U+009F.
pub open spec fn is_control(c: char) -> bool {
    (c as u32) <= 0x1f || (0x7f <= (c as u32) && (c as u32) <= 0x9f)
}

/// `s` with every control character removed, order kept.
pub open spec fn stripped(s: Seq<char>) -> Seq<char>
    decreases s.len(),
{
    if s.len() == 0 {
        Seq::empty()
    } else if is_control(s.last()) {
        stripped(s.drop_last())
    } else {
        stripped(s.drop_last()).push(s.last())
    }
}

/// The Markdown replacement of one character.
pub open spec fn markdown_char(c: char) -> Seq<char> {
    if c == '|' {
        seq!['\\', '|']
    } else if c == '<' {
        seq!['\\', '<']
    } else if c == '`' {
        seq!['\'']
    } else {
        seq![c]
    }
}

/// The HTML replacement of one character.
pub open spec fn html_char(c: char) -> Seq<char> {
    if c == '&' {
        seq!['&', 'a', 'm', 'p', ';']
    } else if c == '<' {
        seq!['&', 'l', 't', ';']
    } else if c == '>' {
        seq!['&', 'g', 't', ';']
    } else if c == '"' {
        seq!['&', 'q', 'u', 'o', 't', ';']
    } else if c == '\'' {
        seq!['&', '#', '3', '9', ';']
    } else {
        seq![c]
    }
}

/// Each character of `s` replaced by its Markdown form, concatenated.
pub open spec fn markdown_escaped(s: Seq<char>) -> Seq<char>
    decreases s.len(),
{
    if s.len() == 0 {
        Seq::empty()
    } else {
        markdown_escaped(s.drop_last()) + markdown_char(s.last())
    }
}

/// Each character of `s` replaced by its HTML form, concatenated.
pub open spec fn html_escaped(s: Seq<char>) -> Seq<char>
    decreases s.len(),
{
    if s.len() == 0 {
        Seq::empty()
    } else {
        html_escaped(s.drop_last()) + html_char(s.last())
    }
}

pub fn is_control_char(c: char) -> (b: bool)
    ensures
        b == is_control(c),
{
    let u = c as u32;
    u <= 0x1f || (0x7f <= u && u <= 0x9f)
}

proof fn lemma_stripped_step(s: Seq<char>, i: int)
    requires
        0 <= i < s.len(),
    ensures
        stripped(s.take(i + 1)) == if is_control(s[i]) {
            stripped(s.take(i))
        } else {
            stripped(s.take(i)).push(s[i])
        },
{
    assert(s.take(i + 1).drop_last() =~= s.take(i));
}

/// Strip control characters (ANSI/OSC escape introducers included). Every
/// rendered value is a single-line cell, so newlines and tabs go too.
pub fn strip_controls(s: &str) -> (out: String)
    ensures
        out@ == stripped(s@),
{
    let mut out = String::new();
    for c in it: s.chars()
        invariant
            it.seq() == s@,
            out@ == stripped(s@.take(it.index() as int)),
    {
        proof {
            lemma_stripped_step(s@, it.index() as int);
        }
        if !is_control_char(c) {
            push_char(&mut out, c);
        }
    }
    proof {
        assert(s@.take(s@.len() as int) =~= s@);
    }
    out
}


proof fn lemma_markdown_push(x: Seq<char>, c: char)
    ensures
        markdown_escaped(x.push(c)) == markdown_escaped(x) + markdown_char(c),
{
    assert(x.push(c).drop_last() =~= x);
}

proof fn lemma_html_push(x: Seq<char>, c: char)
    ensures
        html_escaped(x.push(c)) == html_escaped(x) + html_char(c),
{
    assert(x.push(c).drop_last() =~= x);
}

/// Neutralize Markdown table, code-span and inline-HTML metacharacters for
/// values interpolated into the exported report: control characters go,
/// `|` and `<` get a backslash, and a backtick (which would end the
/// surrounding code span and has no in-span escape) becomes `'`.
pub fn markdown(s: &str) -> (out: String)
    ensures
        out@ == markdown_escaped(stripped(s@)),
{
    let mut out = String::new();
    for c in it: s.chars()
        invariant
            it.seq() == s@,
            out@ == markdown_escaped(stripped(s@.take(it.index() as int))),
    {
        proof {
            lemma_stripped_step(s@, it.index() as int);
            lemma_markdown_push(stripped(s@.take(it.index() as int)), c);
        }
        if !is_control_char(c) {
            let ghost before = out@;
            if c == '|' {
                push_char(&mut out, '\\');
                push_char(&mut out, '|');
            } else if c == '<' {
                push_char(&mut out, '\\');
                push_char(&mut out, '<');
            } else if c == '`' {
                push_char(&mut out, '\'');
            } else {
                push_char(&mut out, c);
            }
            assert(out@ =~= before + markdown_char(c));
        }
    }
    proof {
        assert(s@.take(s@.len() as int) =~= s@);
    }
    out
}

/// Escape for interpolation into HTML text and attribute contexts: control
/// characters go, and `&`, `<`, `>`, `"` and `'` become entities.
pub fn html(s: &str) -> (out: String)
    ensures
        out@ == html_escaped(stripped(s@)),
{
    let mut out = String::new();
    for c in it: s.chars()
        invariant
            it.seq() == s@,
            out@ == html_escaped(stripped(s@.take(it.index() as int))),
    {
        proof {
            lemma_stripped_step(s@, it.index() as int);
            lemma_html_push(stripped(s@.take(it.index() as int)), c);
        }
        if !is_control_char(c) {
            let ghost before = out@;
            if c == '&' {
                push_char(&mut out, '&');
                push_char(&mut out, 'a');
                push_char(&mut out, 'm');
                push_char(&mut out, 'p');
                push_char(&mut out, ';');
            } else if c == '<' {
                push_char(&mut out, '&');
                push_char(&mut out, 'l');
                push_char(&mut out, 't');
                push_char(&mut out, ';');
            } else if c == '>' {
                push_char(&mut out, '&');
                push_char(&mut out, 'g');
                push_char(&mut out, 't');
                push_char(&mut out, ';');
            } else if c == '"' {
                push_char(&mut out, '&');
                push_char(&mut out, 'q');
                push_char(&mut out, 'u');
                push_char(&mut out, 'o');
                push_char(&mut out, 't');
                push_char(&mut out, ';');
            } else if c == '\'' {
                push_char(&mut out, '&');
                push_char(&mut out, '#');
                push_char(&mut out, '3');
                push_char(&mut out, '9');
                push_char(&mut out, ';');
            } else {
                push_char(&mut out, c);
            }
            assert(out@ =~= before + html_char(c));
        }
    }
    proof {
        assert(s@.take(s@.len() as int) =~= s@);
    }
    out
}


/// No character of `s` is a control character.
pub open spec fn free_of_controls(s: Seq<char>) -> bool {
    forall|i: int| 0 <= i < s.len() ==> !is_control(#[trigger] s[i])
}

/// Every occurrence of `c` in `s` is directly preceded by a backslash.
pub open spec fn always_escaped(s: Seq<char>, c: char) -> bool {
    forall|i: int| 0 <= i < s.len() && #[trigger] s[i] == c ==> i > 0 && s[i - 1] == '\\'
}

/// `c` does not occur in `s`.
pub open spec fn absent(s: Seq<char>, c: char) -> bool {
    forall|i: int| 0 <= i < s.len() ==> #[trigger] s[i] != c
}

/// Law: whatever the input, stripped text holds no control character, so no
/// ANSI or OSC escape sequence can be introduced by it.
pub proof fn law_stripped_has_no_controls(s: Seq<char>)
    ensures
        free_of_controls(stripped(s)),
    decreases s.len(),
{
    if s.len() > 0 {
        law_stripped_has_no_controls(s.drop_last());
    }
}

/// Law: text without control characters passes through stripping unchanged.
pub proof fn law_clean_text_unchanged(s: Seq<char>)
    requires
        free_of_controls(s),
    ensures
        stripped(s) == s,
    decreases s.len(),
{
    if s.len() > 0 {
        assert(free_of_controls(s.drop_last()));
        law_clean_text_unchanged(s.drop_last());
        assert(s.drop_last().push(s.last()) =~= s);
    }
}

/// Law: stripping is idempotent.
pub proof fn law_strip_idempotent(s: Seq<char>)
    ensures
        stripped(stripped(s)) == stripped(s),
{
    law_stripped_has_no_controls(s);
    law_clean_text_unchanged(stripped(s));
}

proof fn lemma_markdown_escaped_safe(t: Seq<char>)
    requires
        free_of_controls(t),
    ensures
        free_of_controls(markdown_escaped(t)),
        absent(markdown_escaped(t), '`'),
        always_escaped(markdown_escaped(t), '|'),
        always_escaped(markdown_escaped(t), '<'),
    decreases t.len(),
{
    if t.len() > 0 {
        let p = t.drop_last();
        assert(free_of_controls(p));
        lemma_markdown_escaped_safe(p);
        let c = t.last();
        assert(!is_control(c));
        let a = markdown_escaped(p);
        let b = markdown_char(c);
        let out = a + b;
        assert(out == markdown_escaped(t));
        assert forall|i: int| 0 <= i < out.len() implies !is_control(#[trigger] out[i]) && out[i]
            != '`' by {
            if i >= a.len() {
                assert(out[i] == b[i - a.len()]);
            }
        }
        assert forall|i: int| 0 <= i < out.len() && #[trigger] out[i] == '|' implies i > 0 && out[i
            - 1] == '\\' by {
            if i >= a.len() {
                assert(out[i] == b[i - a.len()]);
                assert(out[i - 1] == b[i - 1 - a.len()]);
            }
        }
        assert forall|i: int| 0 <= i < out.len() && #[trigger] out[i] == '<' implies i > 0 && out[i
            - 1] == '\\' by {
            if i >= a.len() {
                assert(out[i] == b[i - a.len()]);
                assert(out[i - 1] == b[i - 1 - a.len()]);
            }
        }
    }
}

/// Law: Markdown-escaped text holds no control character and no backtick,
/// and every `|` and `<` in it is preceded by a backslash, so a value can
/// neither break out of a table cell or code span nor open an HTML tag.
pub proof fn law_markdown_is_inert(s: Seq<char>)
    ensures
        free_of_controls(markdown_escaped(stripped(s))),
        absent(markdown_escaped(stripped(s)), '`'),
        always_escaped(markdown_escaped(stripped(s)), '|'),
        always_escaped(markdown_escaped(stripped(s)), '<'),
{
    law_stripped_has_no_controls(s);
    lemma_markdown_escaped_safe(stripped(s));
}

proof fn lemma_html_escaped_safe(t: Seq<char>)
    requires
        free_of_controls(t),
    ensures
        free_of_controls(html_escaped(t)),
        absent(html_escaped(t), '<'),
        absent(html_escaped(t), '>'),
        absent(html_escaped(t), '"'),
        absent(html_escaped(t), '\''),
    decreases t.len(),
{
    if t.len() > 0 {
        let p = t.drop_last();
        assert(free_of_controls(p));
        lemma_html_escaped_safe(p);
        let c = t.last();
        assert(!is_control(c));
        let a = html_escaped(p);
        let b = html_char(c);
        let out = a + b;
        assert(out == html_escaped(t));
        assert forall|i: int| 0 <= i < out.len() implies !is_control(#[trigger] out[i]) && out[i]
            != '<' && out[i] != '>' && out[i] != '"' && out[i] != '\'' by {
            if i >= a.len() {
                assert(out[i] == b[i - a.len()]);
            }
        }
    }
}

/// Law: HTML-escaped text holds no control character and none of `<`, `>`,
/// `"` and `'`, so it can neither open a tag nor leave an attribute value.
pub proof fn law_html_is_inert(s: Seq<char>)
    ensures
        free_of_controls(html_escaped(stripped(s))),
        absent(html_escaped(stripped(s)), '<'),
        absent(html_escaped(stripped(s)), '>'),
        absent(html_escaped(stripped(s)), '"'),
        absent(html_escaped(stripped(s)), '\''),
{
    law_stripped_has_no_controls(s);
    lemma_html_escaped_safe(stripped(s));
}

} // verus!
