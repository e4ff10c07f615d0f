//! Character-level text primitives: whitespace, trimming and conversions.

use vstd::prelude::*;
use vstd::std_specs::iter::IteratorSpec;

verus! {

/// Whether `c` is white space: the code points that carry the Unicode
/// `White_Space` property.
pub open spec fn is_whitespace(c: char) -> bool {
    let n = c as u32;
    ||| 0x09 <= n <= 0x0D
    ||| n == 0x20
    ||| n == 0x85
    ||| n == 0xA0
    ||| n == 0x1680
    ||| 0x2000 <= n <= 0x200A
    ||| n == 0x2028
    ||| n == 0x2029
    ||| n == 0x202F
    ||| n == 0x205F
    ||| n == 0x3000
}

/// Decides `is_whitespace`.
pub fn char_is_whitespace(c: char) -> (b: bool)
    ensures
        b == is_whitespace(c),
{
    let n: u32 = c as u32;
    (0x09 <= n && n <= 0x0D) || n == 0x20 || n == 0x85 || n == 0xA0 || n == 0x1680 || (0x2000 <= n
        && n <= 0x200A) || n == 0x2028 || n == 0x2029 || n == 0x202F || n == 0x205F || n == 0x3000
}

/// The characters of `s`, in order.
pub fn chars_of(s: &str) -> (v: Vec<char>)
    ensures
        v@ == s@,
{
    let mut v: Vec<char> = Vec::new();
    for c in it: s.chars()
        invariant
            v@ == it.seq().take(it.index()),
            it.seq() == s@,
    {
        v.push(c);
    }
    v
}

/// Whether every character of `s` is white space.
pub open spec fn is_blank(s: Seq<char>) -> bool {
    forall|i: int| 0 <= i < s.len() ==> is_whitespace(#[trigger] s[i])
}

/// `s` without its leading white space.
pub open spec fn trim_start(s: Seq<char>) -> Seq<char>
    decreases s.len(),
{
    if s.len() > 0 && is_whitespace(s[0]) {
        trim_start(s.drop_first())
    } else {
        s
    }
}

/// `s` without its trailing white space.
pub open spec fn trim_end(s: Seq<char>) -> Seq<char>
    decreases s.len(),
{
    if s.len() > 0 && is_whitespace(s.last()) {
        trim_end(s.drop_last())
    } else {
        s
    }
}

/// `s` without its leading and trailing white space.
pub open spec fn trim(s: Seq<char>) -> Seq<char> {
    trim_end(trim_start(s))
}

/// Text whose leading white space was dropped is empty or begins with a
/// character that is not white space.
pub proof fn lemma_trim_start_head(s: Seq<char>)
    ensures
        trim_start(s).len() > 0 ==> !is_whitespace(trim_start(s)[0]),
        trim_start(s).len() <= s.len(),
    decreases s.len(),
{
    if s.len() > 0 && is_whitespace(s[0]) {
        lemma_trim_start_head(s.drop_first());
    }
}

/// Leading white space in front of a text does not change what is left
/// once leading white space is dropped.
pub proof fn lemma_trim_start_padding(padding: Seq<char>, s: Seq<char>)
    requires
        is_blank(padding),
    ensures
        trim_start(padding + s) == trim_start(s),
    decreases padding.len(),
{
    if padding.len() == 0 {
        assert(padding + s == s);
    } else {
        let rest = padding.drop_first();
        assert((padding + s)[0] == padding[0]);
        assert((padding + s).drop_first() == rest + s);
        assert forall|i: int| 0 <= i < rest.len() implies is_whitespace(#[trigger] rest[i]) by {
            assert(rest[i] == padding[i + 1]);
        }
        lemma_trim_start_padding(rest, s);
    }
}

/// Trailing white space behind a text does not change what is left once
/// trailing white space is dropped.
pub proof fn lemma_trim_end_padding(s: Seq<char>, padding: Seq<char>)
    requires
        is_blank(padding),
    ensures
        trim_end(s + padding) == trim_end(s),
    decreases padding.len(),
{
    if padding.len() == 0 {
        assert(s + padding == s);
    } else {
        let rest = padding.drop_last();
        assert((s + padding).last() == padding.last());
        assert((s + padding).drop_last() == s + rest);
        assert forall|i: int| 0 <= i < rest.len() implies is_whitespace(#[trigger] rest[i]) by {
            assert(rest[i] == padding[i]);
        }
        lemma_trim_end_padding(s, rest);
    }
}

/// Dropping leading white space leaves nothing of a blank text, and leaves
/// what follows a text that is not blank untouched.
pub proof fn lemma_trim_start_append(s: Seq<char>, tail: Seq<char>)
    ensures
        is_blank(s) ==> trim_start(s).len() == 0,
        is_blank(s) ==> trim_start(s + tail) == trim_start(tail),
        !is_blank(s) ==> trim_start(s + tail) == trim_start(s) + tail,
    decreases s.len(),
{
    if s.len() == 0 {
        assert(s + tail == tail);
    } else if is_whitespace(s[0]) {
        let rest = s.drop_first();
        assert((s + tail)[0] == s[0]);
        assert((s + tail).drop_first() == rest + tail);
        lemma_trim_start_append(rest, tail);
        if is_blank(s) {
            assert forall|i: int| 0 <= i < rest.len() implies is_whitespace(#[trigger] rest[i]) by {
                assert(rest[i] == s[i + 1]);
            }
        } else {
            let i = choose|i: int| 0 <= i < s.len() && !is_whitespace(#[trigger] s[i]);
            assert(rest[i - 1] == s[i]);
        }
    } else {
        assert((s + tail)[0] == s[0]);
    }
}

/// White space around a text does not change what is left of it once its
/// surrounding white space is dropped.
pub proof fn lemma_trim_padding(before: Seq<char>, s: Seq<char>, after: Seq<char>)
    requires
        is_blank(before),
        is_blank(after),
    ensures
        trim(before + s + after) == trim(s),
{
    assert(before + s + after == before + (s + after));
    lemma_trim_start_padding(before, s + after);
    lemma_trim_start_append(s, after);
    if is_blank(s) {
        lemma_trim_start_append(after, Seq::empty());
        assert(after + Seq::<char>::empty() == after);
    } else {
        lemma_trim_end_padding(trim_start(s), after);
    }
}

/// The index of the first `c` in `s`, or the length of `s` where it has none.
pub open spec fn position(s: Seq<char>, c: char) -> int
    decreases s.len(),
{
    if s.len() == 0 || s[0] == c {
        0
    } else {
        1 + position(s.drop_first(), c)
    }
}

/// `position` gives an index within `0..=s.len()`; no earlier character is
/// `c`, and the character there is `c` unless the index is the length.
pub proof fn lemma_position(s: Seq<char>, c: char)
    ensures
        0 <= position(s, c) <= s.len(),
        position(s, c) < s.len() ==> s[position(s, c)] == c,
        forall|j: int| 0 <= j < position(s, c) ==> s[j] != c,
    decreases s.len(),
{
    if s.len() != 0 && s[0] != c {
        let t = s.drop_first();
        lemma_position(t, c);
        assert forall|j: int| 0 <= j < position(s, c) implies s[j] != c by {
            if j > 0 {
                assert(s[j] == t[j - 1]);
            }
        }
    }
}

/// An index that holds `c` and has no `c` before it is `position(s, c)`; so is
/// the length of a sequence without `c`.
pub proof fn lemma_position_unique(s: Seq<char>, c: char, i: int)
    requires
        0 <= i <= s.len(),
        i < s.len() ==> s[i] == c,
        forall|j: int| 0 <= j < i ==> s[j] != c,
    ensures
        position(s, c) == i,
{
    lemma_position(s, c);
}

/// The first index at or after `from` where `v` holds `c`, or `to`.
pub(crate) fn find_char(v: &Vec<char>, from: usize, to: usize, c: char) -> (i: usize)
    requires
        from <= to <= v.len(),
    ensures
        i == from + position(v@.subrange(from as int, to as int), c),
        from <= i <= to,
{
    let ghost s = v@.subrange(from as int, to as int);
    let mut i: usize = from;
    while i < to && v[i] != c
        invariant
            from <= i <= to <= v.len(),
            s == v@.subrange(from as int, to as int),
            forall|j: int| 0 <= j < i - from ==> s[j] != c,
        decreases to - i,
    {
        i += 1;
    }
    proof {
        lemma_position_unique(s, c, i - from);
    }
    i
}

/// The start of `v[from..to]` once its leading white space is dropped.
pub(crate) fn trim_start_index(v: &Vec<char>, from: usize, to: usize) -> (i: usize)
    requires
        from <= to <= v.len(),
    ensures
        from <= i <= to,
        v@.subrange(i as int, to as int) == trim_start(v@.subrange(from as int, to as int)),
{
    let mut i: usize = from;
    while i < to && char_is_whitespace(v[i])
        invariant
            from <= i <= to <= v.len(),
            trim_start(v@.subrange(i as int, to as int)) == trim_start(
                v@.subrange(from as int, to as int),
            ),
        decreases to - i,
    {
        assert(v@.subrange(i as int, to as int).drop_first() == v@.subrange(i + 1, to as int));
        i += 1;
    }
    i
}

/// The end of `v[from..to]` once its trailing white space is dropped.
pub(crate) fn trim_end_index(v: &Vec<char>, from: usize, to: usize) -> (i: usize)
    requires
        from <= to <= v.len(),
    ensures
        from <= i <= to,
        v@.subrange(from as int, i as int) == trim_end(v@.subrange(from as int, to as int)),
{
    let mut i: usize = to;
    while from < i && char_is_whitespace(v[i - 1])
        invariant
            from <= i <= to <= v.len(),
            trim_end(v@.subrange(from as int, i as int)) == trim_end(
                v@.subrange(from as int, to as int),
            ),
        decreases i,
    {
        assert(v@.subrange(from as int, i as int).drop_last() == v@.subrange(from as int, i - 1));
        i -= 1;
    }
    i
}

/// The bounds of `v[from..to]` once its surrounding white space is dropped.
pub(crate) fn trim_bounds(v: &Vec<char>, from: usize, to: usize) -> (r: (usize, usize))
    requires
        from <= to <= v.len(),
    ensures
        from <= r.0 <= r.1 <= to,
        v@.subrange(r.0 as int, r.1 as int) == trim(v@.subrange(from as int, to as int)),
{
    let a = trim_start_index(v, from, to);
    let b = trim_end_index(v, a, to);
    (a, b)
}

/// Whether `v[from..to]` holds white space only.
pub(crate) fn is_blank_range(v: &Vec<char>, from: usize, to: usize) -> (b: bool)
    requires
        from <= to <= v.len(),
    ensures
        b == is_blank(v@.subrange(from as int, to as int)),
{
    let ghost s = v@.subrange(from as int, to as int);
    let mut i: usize = from;
    while i < to
        invariant
            from <= i <= to <= v.len(),
            s == v@.subrange(from as int, to as int),
            forall|j: int| 0 <= j < i - from ==> is_whitespace(#[trigger] s[j]),
        decreases to - i,
    {
        if !char_is_whitespace(v[i]) {
            assert(!is_whitespace(s[i - from]));
            return false;
        }
        i += 1;
    }
    true
}

} // verus!
