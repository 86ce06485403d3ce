//! Current line counts for the text files of the HEAD tree.
//!
//! The application walks the tree and loads the blobs; this module decides
//! which blobs count and how many lines they have.
use vstd::prelude::*;
use crate::sanitize::{strip_controls, stripped};

verus! {

/// Blobs larger than this are skipped: they are never meaningful hotspot
/// candidates, and loading them fully would let a hostile repository exhaust
/// memory with a single huge text blob.
pub const MAX_BLOB_BYTES: u64 = 10485760;

/// Number of newline bytes among the first `n` bytes.
pub open spec fn newlines(content: Seq<u8>, n: int) -> nat
    decreases n,
{
    if n <= 0 {
        0
    } else {
        newlines(content, n - 1) + if content[n - 1] == 10 {
            1nat
        } else {
            0nat
        }
    }
}

/// Lines in a blob: every newline ends a line, and a last line without a
/// trailing newline counts too.
pub open spec fn line_count(content: Seq<u8>) -> nat {
    if content.len() == 0 {
        0
    } else if content.last() == 10 {
        newlines(content, content.len() as int)
    } else {
        newlines(content, content.len() as int) + 1
    }
}

proof fn lemma_newlines_bounded(content: Seq<u8>, n: int)
    requires
        0 <= n <= content.len(),
    ensures
        newlines(content, n) <= n,
    decreases n,
{
    if n > 0 {
        lemma_newlines_bounded(content, n - 1);
    }
}

pub fn count_lines(content: &[u8]) -> (n: usize)
    ensures
        n == line_count(content@),
{
    let mut count: usize = 0;
    let mut i: usize = 0;
    while i < content.len()
        invariant
            i <= content.len(),
            count == newlines(content@, i as int),
        decreases content.len() - i,
    {
        proof {
            lemma_newlines_bounded(content@, i as int);
        }
        if content[i] == 10 {
            count = count + 1;
        }
        i = i + 1;
    }
    if content.len() == 0 {
        0
    } else if content[content.len() - 1] == 10 {
        count
    } else {
        proof {
            lemma_newlines_bounded(content@, content@.len() - 1);
            assert(newlines(content@, content@.len() as int) == newlines(content@, content@.len() - 1));
        }
        count + 1
    }
}

/// Whether a blob gets a line count: text, and no larger than the cap.
pub open spec fn counted(is_binary: bool, size: u64) -> bool {
    !is_binary && size <= MAX_BLOB_BYTES
}

/// The line-count entry of a blob of the HEAD tree: its path with control
/// characters stripped (as commit paths are, so that the two join) and its
/// line count; `None` for binary and oversized blobs.
pub fn line_entry(path: &str, is_binary: bool, size: u64, content: &[u8]) -> (r: Option<(String, usize)>)
    ensures
        r is Some <==> counted(is_binary, size),
        r matches Some(e) ==> e.0@ == stripped(path@) && e.1 == line_count(content@),
{
    if is_binary || size > MAX_BLOB_BYTES {
        None
    } else {
        Some((strip_controls(path), count_lines(content)))
    }
}

/// The newline bytes of a blob, in order.
pub open spec fn newline_bytes(content: Seq<u8>) -> Seq<u8> {
    content.filter(|b: u8| b == 10u8)
}

proof fn lemma_newlines_are_newline_bytes(content: Seq<u8>, n: int)
    requires
        0 <= n <= content.len(),
    ensures
        newlines(content, n) == newline_bytes(content.take(n)).len(),
    decreases n,
{
    reveal(Seq::filter);
    if n == 0 {
        assert(content.take(0) =~= Seq::<u8>::empty());
    } else {
        lemma_newlines_are_newline_bytes(content, n - 1);
        assert(content.take(n).drop_last() =~= content.take(n - 1));
        assert(content.take(n).last() == content[n - 1]);
    }
}

/// Law: the line count of a blob is the number of its `\n` bytes, plus one
/// when it is not empty and does not end in `\n`. No other byte (a `\r` of
/// a CRLF line end among them) counts.
pub proof fn law_line_count_is_newline_bytes(content: Seq<u8>)
    ensures
        line_count(content) == newline_bytes(content).len() + if content.len() > 0 && content.last() != 10u8 {
            1nat
        } else {
            0nat
        },
{
    lemma_newlines_are_newline_bytes(content, content.len() as int);
    assert(content.take(content.len() as int) =~= content);
}

proof fn lemma_newlines_update(content: Seq<u8>, i: int, b: u8, n: int)
    requires
        0 <= i < content.len(),
        0 <= n <= content.len(),
        content[i] != 10u8,
        b != 10u8,
    ensures
        newlines(content.update(i, b), n) == newlines(content, n),
    decreases n,
{
    if n > 0 {
        lemma_newlines_update(content, i, b, n - 1);
    }
}

/// Law: overwriting a byte that is not `\n` with another byte that is not
/// `\n` (for instance a letter with `\r`) leaves the line count unchanged.
pub proof fn law_line_count_ignores_other_bytes(content: Seq<u8>, i: int, b: u8)
    requires
        0 <= i < content.len(),
        content[i] != 10u8,
        b != 10u8,
    ensures
        line_count(content.update(i, b)) == line_count(content),
{
    lemma_newlines_update(content, i, b, content.len() as int);
}

/// Law: appending a `\n` to a blob that does not end in one leaves its line
/// count unchanged (the last line gets its end); appending one to a blob
/// that is empty or ends in one adds a line.
pub proof fn law_line_count_newline_appended(content: Seq<u8>)
    ensures
        line_count(content.push(10u8)) == if content.len() > 0 && content.last() != 10u8 {
            line_count(content)
        } else {
            line_count(content) + 1
        },
{
    let c2 = content.push(10u8);
    assert(c2.last() == 10u8);
    assert(newlines(c2, content.len() as int) == newlines(content, content.len() as int)) by {
        lemma_newlines_prefix(content, c2, content.len() as int);
    }
}

proof fn lemma_newlines_prefix(a: Seq<u8>, b: Seq<u8>, n: int)
    requires
        0 <= n <= a.len(),
        n <= b.len(),
        forall|k: int| 0 <= k < n ==> a[k] == b[k],
    ensures
        newlines(a, n) == newlines(b, n),
    decreases n,
{
    if n > 0 {
        lemma_newlines_prefix(a, b, n - 1);
    }
}

} // verus!
