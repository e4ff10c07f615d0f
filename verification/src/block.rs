//! The metadata block: a run of lines between two delimiter lines.
//!
//! A delimiter is a line that holds three hyphens and nothing else. The first
//! delimiter of a document opens the block and the next one closes it.

use crate::text::{chars_of, trim_start, trim_start_index};
use vstd::prelude::*;
use vstd::string::*;

verus! {

/// Whether a delimiter line starts at index `i` of `s`: three hyphens that
/// begin a line and are followed by the end of the line or of the text.
pub open spec fn marker_at(s: Seq<char>, i: int) -> bool {
    &&& 0 <= i
    &&& i + 3 <= s.len()
    &&& s[i] == '-'
    &&& s[i + 1] == '-'
    &&& s[i + 2] == '-'
    &&& (i == 0 || s[i - 1] == '\n')
    &&& (i + 3 == s.len() || s[i + 3] == '\n' || (s[i + 3] == '\r' && i + 4 < s.len() && s[i + 4]
        == '\n'))
}

/// The index of the first delimiter at or after `from`.
pub open spec fn next_marker(s: Seq<char>, from: int) -> Option<int>
    decreases s.len() - from,
{
    if from < 0 || from + 3 > s.len() {
        None
    } else if marker_at(s, from) {
        Some(from)
    } else {
        next_marker(s, from + 1)
    }
}

/// Where the opening and the closing delimiter of the block start, if the
/// document has a block.
pub open spec fn block_span(s: Seq<char>) -> Option<(int, int)> {
    match next_marker(s, 0) {
        Some(open) => match next_marker(s, open + 3) {
            Some(close) => Some((open, close)),
            None => None,
        },
        None => None,
    }
}

/// The text between the two delimiters, if the document has a block.
pub open spec fn block_interior(s: Seq<char>) -> Option<Seq<char>> {
    match block_span(s) {
        Some((open, close)) => Some(s.subrange(open + 3, close)),
        None => None,
    }
}

/// The document without its block: what stands before the opening delimiter,
/// then what follows the closing delimiter with its leading white space
/// dropped. A document without a block is its own body.
pub open spec fn block_body(s: Seq<char>) -> Seq<char> {
    match block_span(s) {
        Some((open, close)) => s.subrange(0, open) + trim_start(
            s.subrange(close + 3, s.len() as int),
        ),
        None => s,
    }
}

/// `next_marker` finds the least delimiter index from `from` on, and finds
/// none only where there is none.
pub proof fn lemma_next_marker(s: Seq<char>, from: int)
    requires
        0 <= from,
    ensures
        match next_marker(s, from) {
            Some(i) => from <= i && marker_at(s, i) && forall|j: int|
                from <= j < i ==> !marker_at(s, j),
            None => forall|j: int| from <= j ==> !marker_at(s, j),
        },
    decreases s.len() - from,
{
    if from + 3 <= s.len() && !marker_at(s, from) {
        lemma_next_marker(s, from + 1);
    }
}

/// The delimiters of a block lie within the document, the closing one at
/// least a line break behind the opening one.
pub proof fn lemma_block_span(s: Seq<char>)
    ensures
        match block_span(s) {
            Some((open, close)) => {
                &&& 0 <= open
                &&& open + 4 <= close
                &&& close + 3 <= s.len()
                &&& marker_at(s, open)
                &&& marker_at(s, close)
                &&& forall|j: int| 0 <= j < open ==> !marker_at(s, j)
                &&& forall|j: int| open < j < close ==> !marker_at(s, j)
            },
            None => true,
        },
{
    lemma_next_marker(s, 0);
    if let Some(open) = next_marker(s, 0) {
        lemma_next_marker(s, open + 3);
    }
}

/// Decides `marker_at`.
pub(crate) fn is_marker(v: &Vec<char>, i: usize) -> (b: bool)
    requires
        i + 3 <= v.len(),
    ensures
        b == marker_at(v@, i as int),
{
    let n = v.len();
    v[i] == '-' && v[i + 1] == '-' && v[i + 2] == '-' && (i == 0 || v[i - 1] == '\n') && (i + 3 == n
        || v[i + 3] == '\n' || (v[i + 3] == '\r' && i + 4 < n && v[i + 4] == '\n'))
}

/// Computes `next_marker`.
pub(crate) fn find_marker(v: &Vec<char>, from: usize) -> (r: Option<usize>)
    ensures
        match r {
            Some(i) => next_marker(v@, from as int) == Some(i as int) && from <= i && i + 3
                <= v.len(),
            None => next_marker(v@, from as int) is None,
        },
{
    let n = v.len();
    let mut i: usize = from;
    while i < n && n - i >= 3
        invariant
            from <= i,
            n == v.len(),
            next_marker(v@, i as int) == next_marker(v@, from as int),
        decreases n - i,
    {
        if is_marker(v, i) {
            return Some(i);
        }
        i += 1;
    }
    None
}

/// Computes `block_span`.
pub(crate) fn find_block(v: &Vec<char>) -> (r: Option<(usize, usize)>)
    ensures
        match r {
            Some((open, close)) => block_span(v@) == Some((open as int, close as int)) && open + 4
                <= close && close + 3 <= v.len(),
            None => block_span(v@) is None,
        },
{
    proof {
        lemma_block_span(v@);
    }
    match find_marker(v, 0) {
        Some(open) => {
            proof {
                lemma_next_marker(v@, 0);
            }
            match find_marker(v, open + 3) {
                Some(close) => Some((open, close)),
                None => None,
            }
        },
        None => None,
    }
}

/// The body of a document whose block has its delimiters at `open` and
/// `close`.
pub(crate) fn body_around(content: &str, v: &Vec<char>, open: usize, close: usize) -> (body: String)
    requires
        v@ == content@,
        block_span(v@) == Some((open as int, close as int)),
        open <= close,
        close + 3 <= v.len(),
    ensures
        body@ == block_body(content@),
{
    let n = v.len();
    let rest = trim_start_index(v, close + 3, n);
    content.substring_char(0, open).to_owned().concat(content.substring_char(rest, n))
}

/// Splits a document into the interior of its metadata block, if it has one,
/// and its body.
pub fn extract_block(content: &str) -> (r: (Option<String>, String))
    ensures
        match r.0 {
            Some(interior) => block_interior(content@) == Some(interior@),
            None => block_interior(content@) is None,
        },
        r.1@ == block_body(content@),
{
    let v = chars_of(content);
    match find_block(&v) {
        Some((open, close)) => {
            let interior = content.substring_char(open + 3, close).to_owned();
            (Some(interior), body_around(content, &v, open, close))
        },
        None => (None, content.to_owned()),
    }
}

} // verus!
