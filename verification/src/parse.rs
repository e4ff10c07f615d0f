//! The lines of a metadata block and the entries that they declare.
//!
//! A line declares an entry where its first colon has at least one character
//! on either side: the key is what stands before that colon and the value is
//! what stands behind it, both without their surrounding white space.

use crate::error::MetadataError;
use crate::map::{distinct_keys, lemma_put, put, Entries, MetadataMap};
use crate::text::{
    chars_of, find_char, is_blank, is_blank_range, lemma_position, position, trim, trim_bounds,
};
use vstd::prelude::*;
use vstd::string::StrSliceExecFns;

verus! {

/// `line` without a carriage return at its end.
pub open spec fn strip_cr(line: Seq<char>) -> Seq<char> {
    if line.len() > 0 && line.last() == '\r' {
        line.drop_last()
    } else {
        line
    }
}

/// The lines of `s`. A line ends at a line feed, or at the end of the text
/// where that is not behind a line feed; a carriage return in front of the
/// line feed belongs to the line ending.
pub open spec fn lines_of(s: Seq<char>) -> Seq<Seq<char>>
    decreases s.len(),
{
    if s.len() == 0 {
        Seq::empty()
    } else {
        let n = position(s, '\n');
        if 0 <= n < s.len() {
            seq![strip_cr(s.subrange(0, n))] + lines_of(s.subrange(n + 1, s.len() as int))
        } else {
            seq![s]
        }
    }
}

/// The entry that `line` declares, if it has the shape of one.
pub open spec fn entry_of(line: Seq<char>) -> Option<(Seq<char>, Seq<char>)> {
    let colon = position(line, ':');
    if 1 <= colon && colon + 1 < line.len() {
        Some((trim(line.subrange(0, colon)), trim(line.subrange(colon + 1, line.len() as int))))
    } else {
        None
    }
}

/// Whether `line` is neither blank nor an entry.
pub open spec fn malformed(line: Seq<char>) -> bool {
    !is_blank(line) && entry_of(line) is None
}

/// The index of the first malformed line of `lines`, or their number where
/// none is malformed.
pub open spec fn first_malformed(lines: Seq<Seq<char>>) -> int
    decreases lines.len(),
{
    if lines.len() == 0 || malformed(lines[0]) {
        0
    } else {
        1 + first_malformed(lines.drop_first())
    }
}

/// The entries that `lines` declare, later lines overwriting earlier ones
/// with the same key. Blank and malformed lines declare nothing.
pub open spec fn entries_of(lines: Seq<Seq<char>>) -> Entries
    decreases lines.len(),
{
    if lines.len() == 0 {
        Entries::empty()
    } else {
        let earlier = entries_of(lines.drop_last());
        let line = lines.last();
        if is_blank(line) {
            earlier
        } else {
            match entry_of(line) {
                Some((key, value)) => put(earlier, key, value),
                None => earlier,
            }
        }
    }
}

/// What reading `lines` gives: under the strict policy the first malformed
/// line, if there is one; else the entries that the lines declare.
pub open spec fn parsed(lines: Seq<Seq<char>>, tolerant: bool) -> Result<Entries, Seq<char>> {
    if !tolerant && first_malformed(lines) < lines.len() {
        Err(lines[first_malformed(lines)])
    } else {
        Ok(entries_of(lines))
    }
}

/// The malformed lines among `lines`, in their order.
pub open spec fn malformed_among(lines: Seq<Seq<char>>) -> Seq<Seq<char>>
    decreases lines.len(),
{
    if lines.len() == 0 {
        Seq::empty()
    } else if malformed(lines.last()) {
        malformed_among(lines.drop_last()).push(lines.last())
    } else {
        malformed_among(lines.drop_last())
    }
}

/// The texts that a list of strings holds.
pub open spec fn texts_of(strings: Seq<String>) -> Seq<Seq<char>> {
    Seq::new(strings.len(), |i: int| strings[i]@)
}

/// The key that `line` declares, where it declares an entry.
pub open spec fn declared_key(line: Seq<char>) -> Seq<char> {
    entry_of(line).unwrap().0
}

/// The value that `line` declares, where it declares an entry.
pub open spec fn declared_value(line: Seq<char>) -> Seq<char> {
    entry_of(line).unwrap().1
}

/// `lines` without the malformed ones.
pub open spec fn well_formed(lines: Seq<Seq<char>>) -> Seq<Seq<char>>
    decreases lines.len(),
{
    if lines.len() == 0 {
        Seq::empty()
    } else if malformed(lines.last()) {
        well_formed(lines.drop_last())
    } else {
        well_formed(lines.drop_last()).push(lines.last())
    }
}

/// `first_malformed` gives an index within `0..=lines.len()`; no earlier
/// line is malformed, and the line there is unless the index is the length.
pub proof fn lemma_first_malformed(lines: Seq<Seq<char>>)
    ensures
        0 <= first_malformed(lines) <= lines.len(),
        first_malformed(lines) < lines.len() ==> malformed(lines[first_malformed(lines)]),
        forall|j: int| 0 <= j < first_malformed(lines) ==> !malformed(#[trigger] lines[j]),
    decreases lines.len(),
{
    if lines.len() != 0 && !malformed(lines[0]) {
        let t = lines.drop_first();
        lemma_first_malformed(t);
        assert forall|j: int| 0 <= j < first_malformed(lines) implies !malformed(
            #[trigger] lines[j],
        ) by {
            if j > 0 {
                assert(lines[j] == t[j - 1]);
            }
        }
    }
}

/// A malformed line with none before it is the first one; where no line is
/// malformed the index is the number of lines.
pub proof fn lemma_first_malformed_unique(lines: Seq<Seq<char>>, i: int)
    requires
        0 <= i <= lines.len(),
        i < lines.len() ==> malformed(lines[i]),
        forall|j: int| 0 <= j < i ==> !malformed(#[trigger] lines[j]),
    ensures
        first_malformed(lines) == i,
{
    lemma_first_malformed(lines);
}

/// The entries that lines declare never hold a key twice.
pub proof fn lemma_entries_distinct(lines: Seq<Seq<char>>)
    ensures
        distinct_keys(entries_of(lines)),
    decreases lines.len(),
{
    if lines.len() > 0 {
        lemma_entries_distinct(lines.drop_last());
        let line = lines.last();
        if !is_blank(line) {
            if let Some((key, value)) = entry_of(line) {
                lemma_put(entries_of(lines.drop_last()), key, value);
            }
        }
    }
}

/// Reads the entry that `v[from..to]` declares.
fn parse_range(text: &str, v: &Vec<char>, from: usize, to: usize) -> (r: Option<(String, String)>)
    requires
        v@ == text@,
        from <= to <= v.len(),
    ensures
        match r {
            Some((key, value)) => entry_of(v@.subrange(from as int, to as int)) == Some(
                (key@, value@),
            ),
            None => entry_of(v@.subrange(from as int, to as int)) is None,
        },
{
    let ghost line = v@.subrange(from as int, to as int);
    let colon = find_char(v, from, to, ':');
    if colon > from && colon < to && to - colon > 1 {
        let (key_start, key_end) = trim_bounds(v, from, colon);
        let (value_start, value_end) = trim_bounds(v, colon + 1, to);
        assert(line.subrange(0, colon - from) == v@.subrange(from as int, colon as int));
        assert(line.subrange(colon - from + 1, line.len() as int) == v@.subrange(
            colon + 1,
            to as int,
        ));
        let key = text.substring_char(key_start, key_end).to_owned();
        let value = text.substring_char(value_start, value_end).to_owned();
        Some((key, value))
    } else {
        None
    }
}

/// Reads the entry that `line` declares, if it has the shape of one.
pub fn parse_line(line: &str) -> (r: Option<(String, String)>)
    ensures
        match r {
            Some((key, value)) => entry_of(line@) == Some((key@, value@)),
            None => entry_of(line@) is None,
        },
{
    let v = chars_of(line);
    assert(v@.subrange(0, v@.len() as int) == v@);
    parse_range(line, &v, 0, v.len())
}

/// The bounds of the first line of `v[pos..to]`: where the line ends, and
/// where the text behind its line ending starts.
fn next_line(v: &Vec<char>, pos: usize, to: usize) -> (r: (usize, usize))
    requires
        pos < to <= v.len(),
    ensures
        pos <= r.0 <= r.1 <= to,
        pos < r.1,
        lines_of(v@.subrange(pos as int, to as int)) == seq![
            v@.subrange(pos as int, r.0 as int),
        ] + lines_of(v@.subrange(r.1 as int, to as int)),
{
    let ghost rest = v@.subrange(pos as int, to as int);
    let end = find_char(v, pos, to, '\n');
    proof {
        lemma_position(rest, '\n');
    }
    if end < to {
        let line_end = if end > pos && v[end - 1] == '\r' {
            end - 1
        } else {
            end
        };
        proof {
            assert(rest.subrange(0, end - pos) == v@.subrange(pos as int, end as int));
            if end > pos {
                assert(v@.subrange(pos as int, end as int).drop_last() == v@.subrange(
                    pos as int,
                    end - 1,
                ));
            }
            assert(rest.subrange(end - pos + 1, rest.len() as int) == v@.subrange(
                end + 1,
                to as int,
            ));
        }
        (line_end, end + 1)
    } else {
        proof {
            assert(lines_of(v@.subrange(to as int, to as int)) == Seq::<Seq<char>>::empty());
        }
        (to, to)
    }
}

/// Reads the lines of `v[from..to]` under the given policy.
pub(crate) fn parse_lines_range(
    text: &str,
    v: &Vec<char>,
    from: usize,
    to: usize,
    continue_on_error: bool,
) -> (r: Result<MetadataMap, MetadataError>)
    requires
        v@ == text@,
        from <= to <= v.len(),
    ensures
        match r {
            Ok(metadata) => parsed(lines_of(v@.subrange(from as int, to as int)), continue_on_error)
                == Ok::<Entries, Seq<char>>(metadata.entries()),
            Err(e) => parsed(lines_of(v@.subrange(from as int, to as int)), continue_on_error)
                == Err::<Entries, Seq<char>>(e.line()),
        },
{
    let ghost all = lines_of(v@.subrange(from as int, to as int));
    let ghost mut done: Seq<Seq<char>> = Seq::empty();
    let mut metadata = MetadataMap::new();
    let mut pos: usize = from;
    while pos < to
        invariant
            v@ == text@,
            from <= pos <= to <= v.len(),
            all == lines_of(v@.subrange(from as int, to as int)),
            all == done + lines_of(v@.subrange(pos as int, to as int)),
            metadata.entries() == entries_of(done),
            !continue_on_error ==> forall|j: int| 0 <= j < done.len() ==> !malformed(#[trigger] done[j]),
        decreases to - pos,
    {
        let (line_end, next) = next_line(v, pos, to);
        let ghost line = v@.subrange(pos as int, line_end as int);
        proof {
            assert(all == done.push(line) + lines_of(v@.subrange(next as int, to as int)));
            assert(done.push(line).drop_last() == done);
        }
        if !is_blank_range(v, pos, line_end) {
            match parse_range(text, v, pos, line_end) {
                Some((key, value)) => {
                    metadata.insert(key, value);
                },
                None => {
                    if !continue_on_error {
                        proof {
                            assert(all[done.len() as int] == line);
                            assert forall|j: int| 0 <= j < done.len() implies !malformed(
                                #[trigger] all[j],
                            ) by {
                                assert(all[j] == done[j]);
                            }
                            lemma_first_malformed_unique(all, done.len() as int);
                        }
                        let offending = text.substring_char(pos, line_end).to_owned();
                        return Err(MetadataError::ImproperlyFormattedLine(offending));
                    }
                },
            }
        }
        proof {
            done = done.push(line);
        }
        pos = next;
    }
    proof {
        assert(all == done);
        if !continue_on_error {
            lemma_first_malformed_unique(all, all.len() as int);
        }
    }
    Ok(metadata)
}

/// The malformed lines of `v[from..to]`, in their order.
pub(crate) fn malformed_lines_range(text: &str, v: &Vec<char>, from: usize, to: usize) -> (r: Vec<
    String,
>)
    requires
        v@ == text@,
        from <= to <= v.len(),
    ensures
        texts_of(r@) == malformed_among(lines_of(v@.subrange(from as int, to as int))),
{
    let ghost all = lines_of(v@.subrange(from as int, to as int));
    let ghost mut done: Seq<Seq<char>> = Seq::empty();
    let mut found: Vec<String> = Vec::new();
    let mut pos: usize = from;
    assert(texts_of(found@) == malformed_among(done));
    while pos < to
        invariant
            v@ == text@,
            from <= pos <= to <= v.len(),
            all == done + lines_of(v@.subrange(pos as int, to as int)),
            texts_of(found@) == malformed_among(done),
        decreases to - pos,
    {
        let (line_end, next) = next_line(v, pos, to);
        let ghost line = v@.subrange(pos as int, line_end as int);
        proof {
            assert(all == done.push(line) + lines_of(v@.subrange(next as int, to as int)));
            assert(done.push(line).drop_last() == done);
        }
        if !is_blank_range(v, pos, line_end) && parse_range(text, v, pos, line_end).is_none() {
            let ghost before = found@;
            found.push(text.substring_char(pos, line_end).to_owned());
            assert(texts_of(found@) == texts_of(before).push(line));
        }
        proof {
            done = done.push(line);
        }
        pos = next;
    }
    assert(all == done);
    found
}

/// Reads the lines of a metadata block. Under the tolerant policy
/// (`continue_on_error`) malformed lines are passed over; under the strict
/// policy the first one ends the reading and is returned.
pub fn parse_lines(block: &str, continue_on_error: bool) -> (r: Result<MetadataMap, MetadataError>)
    ensures
        match r {
            Ok(metadata) => parsed(lines_of(block@), continue_on_error) == Ok::<
                Entries,
                Seq<char>,
            >(metadata.entries()),
            Err(e) => parsed(lines_of(block@), continue_on_error) == Err::<Entries, Seq<char>>(
                e.line(),
            ),
        },
{
    let v = chars_of(block);
    assert(v@.subrange(0, v@.len() as int) == v@);
    parse_lines_range(block, &v, 0, v.len(), continue_on_error)
}

/// The lines of a metadata block that are malformed, in their order: those
/// that the tolerant policy passes over.
pub fn malformed_lines(block: &str) -> (r: Vec<String>)
    ensures
        texts_of(r@) == malformed_among(lines_of(block@)),
{
    let v = chars_of(block);
    assert(v@.subrange(0, v@.len() as int) == v@);
    malformed_lines_range(block, &v, 0, v.len())
}

} // verus!
