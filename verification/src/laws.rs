//! What holds of the library as a whole, proved from the definitions that the
//! contracts of its functions use.

use crate::block::{block_body, block_interior, block_span, lemma_block_span, marker_at};
use crate::filter::{kept, lemma_kept_distinct, lemma_kept_entries, permitted};
use crate::map::{
    as_map, distinct_keys, lemma_as_map_len, lemma_key_index, lemma_lookup_is_membership,
    lemma_put, lookup, Entries,
};
use crate::metadata::{document_parsed, transformed};
use crate::parse::{
    declared_key, declared_value, entries_of, entry_of, first_malformed, lemma_entries_distinct,
    lemma_first_malformed, malformed, parsed, well_formed,
};
use crate::render::{escaped, escaped_char, tags_of};
use crate::text::{
    is_blank, is_whitespace, lemma_position_unique, lemma_trim_padding, lemma_trim_start_head,
    trim, trim_start,
};
use vstd::prelude::*;

verus! {

/// A document without a metadata block has no entries and is its own body,
/// under either policy; transformed, it is the document itself.
pub proof fn law_no_block(s: Seq<char>, allow: Option<Set<Seq<char>>>, tolerant: bool)
    requires
        block_span(s) is None,
    ensures
        block_interior(s) is None,
        block_body(s) == s,
        document_parsed(s, tolerant) == Ok::<(Entries, Seq<char>), Seq<char>>(
            (Entries::empty(), s),
        ),
        transformed(s, allow, tolerant) == Ok::<Seq<char>, Seq<char>>(s),
{
    assert(permitted(Entries::empty(), allow).len() == 0);
}

/// White space around the key and around the value of a line does not change
/// the entry that the line declares: the entry is the key and the value
/// without their surrounding white space.
pub proof fn law_padding_is_insignificant(
    key: Seq<char>,
    value: Seq<char>,
    before_key: Seq<char>,
    after_key: Seq<char>,
    before_value: Seq<char>,
    after_value: Seq<char>,
)
    requires
        key.len() > 0,
        value.len() > 0,
        forall|i: int| 0 <= i < key.len() ==> key[i] != ':',
        is_blank(before_key),
        is_blank(after_key),
        is_blank(before_value),
        is_blank(after_value),
    ensures
        entry_of(
            before_key + key + after_key + seq![':'] + before_value + value + after_value,
        ) == Some((trim(key), trim(value))),
        entry_of(
            before_key + key + after_key + seq![':'] + before_value + value + after_value,
        ) == entry_of(key + seq![':'] + value),
{
    let empty = Seq::<char>::empty();
    lemma_padded_entry(key, value, before_key, after_key, before_value, after_value);
    lemma_padded_entry(key, value, empty, empty, empty, empty);
    assert(empty + key + empty + seq![':'] + empty + value + empty == key + seq![':'] + value);
}

/// The entry of a line whose key and value are padded with white space.
proof fn lemma_padded_entry(
    key: Seq<char>,
    value: Seq<char>,
    before_key: Seq<char>,
    after_key: Seq<char>,
    before_value: Seq<char>,
    after_value: Seq<char>,
)
    requires
        key.len() > 0,
        value.len() > 0,
        forall|i: int| 0 <= i < key.len() ==> key[i] != ':',
        is_blank(before_key),
        is_blank(after_key),
        is_blank(before_value),
        is_blank(after_value),
    ensures
        entry_of(
            before_key + key + after_key + seq![':'] + before_value + value + after_value,
        ) == Some((trim(key), trim(value))),
{
    let left = before_key + key + after_key;
    let right = before_value + value + after_value;
    let line = left + seq![':'] + right;
    assert(line == before_key + key + after_key + seq![':'] + before_value + value + after_value);
    let colon = left.len() as int;
    assert(line[colon] == ':');
    assert forall|j: int| 0 <= j < colon implies line[j] != ':' by {
        assert(line[j] == left[j]);
        if j < before_key.len() {
            assert(left[j] == before_key[j]);
            assert(is_whitespace(before_key[j]));
        } else if j < before_key.len() + key.len() {
            assert(left[j] == key[j - before_key.len()]);
        } else {
            assert(left[j] == after_key[j - before_key.len() - key.len()]);
            assert(is_whitespace(after_key[j - before_key.len() - key.len()]));
        }
    }
    lemma_position_unique(line, ':', colon);
    assert(line.subrange(0, colon) == left);
    assert(line.subrange(colon + 1, line.len() as int) == right);
    lemma_trim_padding(before_key, key, after_key);
    lemma_trim_padding(before_value, value, after_value);
}

/// However often a key is declared, the entries hold it once.
pub proof fn law_one_entry_per_key(lines: Seq<Seq<char>>)
    ensures
        distinct_keys(entries_of(lines)),
        as_map(entries_of(lines)).dom().finite(),
        as_map(entries_of(lines)).dom().len() == entries_of(lines).len(),
{
    lemma_entries_distinct(lines);
    lemma_as_map_len(entries_of(lines));
}

/// Where a key is declared more than once, the value of its last declaration
/// stands: a line that declares an entry, with no later line that declares
/// the same key, gives the key its value.
pub proof fn law_last_declaration_wins(lines: Seq<Seq<char>>, i: int)
    requires
        0 <= i < lines.len(),
        !is_blank(lines[i]),
        entry_of(lines[i]) is Some,
        forall|j: int|
            i < j < lines.len() && !is_blank(lines[j]) && entry_of(#[trigger] lines[j]) is Some
                ==> declared_key(lines[j]) != declared_key(lines[i]),
    ensures
        lookup(entries_of(lines), declared_key(lines[i])) == Some(declared_value(lines[i])),
        as_map(entries_of(lines)).dom().contains(declared_key(lines[i])),
        as_map(entries_of(lines))[declared_key(lines[i])] == declared_value(lines[i]),
    decreases lines.len(),
{
    let key = declared_key(lines[i]);
    let front = lines.drop_last();
    let earlier = entries_of(front);
    lemma_entries_distinct(front);
    if i == lines.len() - 1 {
        lemma_put(earlier, key, declared_value(lines[i]));
    } else {
        assert(front[i] == lines[i]);
        assert forall|j: int|
            i < j < front.len() && !is_blank(front[j]) && entry_of(
                #[trigger] front[j],
            ) is Some implies declared_key(front[j]) != key by {
            assert(front[j] == lines[j]);
        }
        law_last_declaration_wins(front, i);
        let line = lines.last();
        if !is_blank(line) {
            if let Some((k, v)) = entry_of(line) {
                assert(lines[lines.len() - 1] == line);
                lemma_put(earlier, k, v);
            }
        }
    }
}

/// Escaped text holds none of `<`, `>`, `"`, `'` and `/`, so it holds no
/// `<script` either; and each `&` in it begins one of the six entities.
pub proof fn law_escaped_is_inert(value: Seq<char>)
    ensures
        forall|i: int|
            0 <= i < escaped(value).len() ==> {
                let c = #[trigger] escaped(value)[i];
                c != '<' && c != '>' && c != '"' && c != '\'' && c != '/'
            },
        forall|i: int|
            0 <= i < escaped(value).len() && #[trigger] escaped(value)[i] == '&' ==> exists|
                c: char,
            |
                escaped_char(c).len() > 1 && i + escaped_char(c).len() <= escaped(value).len()
                    && #[trigger] escaped_char(c) == escaped(value).subrange(
                    i,
                    i + escaped_char(c).len(),
                ),
    decreases value.len(),
{
    if value.len() > 0 {
        let front = escaped(value.drop_last());
        let tail = escaped_char(value.last());
        let all = escaped(value);
        law_escaped_is_inert(value.drop_last());
        assert forall|i: int| 0 <= i < all.len() implies {
            let c = #[trigger] all[i];
            c != '<' && c != '>' && c != '"' && c != '\'' && c != '/'
        } by {
            if i < front.len() {
                assert(all[i] == front[i]);
            } else {
                assert(all[i] == tail[i - front.len()]);
            }
        }
        assert forall|i: int| 0 <= i < all.len() && #[trigger] all[i] == '&' implies exists|
            c: char,
        |
            escaped_char(c).len() > 1 && i + escaped_char(c).len() <= all.len()
                && #[trigger] escaped_char(c) == all.subrange(i, i + escaped_char(c).len()) by {
            if i < front.len() {
                assert(all[i] == front[i]);
                let c = choose|c: char|
                    escaped_char(c).len() > 1 && i + escaped_char(c).len() <= front.len()
                        && #[trigger] escaped_char(c) == front.subrange(
                        i,
                        i + escaped_char(c).len(),
                    );
                assert(front.subrange(i, i + escaped_char(c).len()) == all.subrange(
                    i,
                    i + escaped_char(c).len(),
                ));
            } else {
                assert(all[i] == tail[i - front.len()]);
                assert(i == front.len());
                let c = value.last();
                assert(escaped_char(c) == all.subrange(i, i + escaped_char(c).len()));
            }
        }
    }
}

/// A mapping without entries renders as the empty text.
pub proof fn law_no_entries_no_tags()
    ensures
        tags_of(Entries::empty()) == Seq::<char>::empty(),
{
}

/// Where the allow-list leaves no entry of a document, the transformed
/// document is the body of the document, with nothing put in front of it.
pub proof fn law_nothing_shown_leaves_body(
    s: Seq<char>,
    allow: Option<Set<Seq<char>>>,
    tolerant: bool,
)
    requires
        match document_parsed(s, tolerant) {
            Ok((es, _)) => permitted(es, allow).len() == 0,
            Err(_) => false,
        },
    ensures
        transformed(s, allow, tolerant) == Ok::<Seq<char>, Seq<char>>(block_body(s)),
{
}

/// Under the strict policy reading stops at the first malformed line and
/// returns that line as it stands; it succeeds exactly where no line is
/// malformed.
pub proof fn law_strict_stops_at_first_malformed(lines: Seq<Seq<char>>)
    ensures
        parsed(lines, false) is Err <==> exists|i: int|
            0 <= i < lines.len() && malformed(#[trigger] lines[i]),
        parsed(lines, false) is Err ==> {
            let i = first_malformed(lines);
            &&& 0 <= i < lines.len()
            &&& malformed(lines[i])
            &&& forall|j: int| 0 <= j < i ==> !malformed(#[trigger] lines[j])
            &&& parsed(lines, false) == Err::<Entries, Seq<char>>(lines[i])
        },
        parsed(lines, false) is Ok ==> parsed(lines, false) == parsed(lines, true),
{
    lemma_first_malformed(lines);
}

/// Under the tolerant policy reading always succeeds, and gives what the
/// strict policy gives for the same lines without the malformed ones.
pub proof fn law_tolerant_skips_malformed(lines: Seq<Seq<char>>)
    ensures
        parsed(lines, true) == Ok::<Entries, Seq<char>>(entries_of(lines)),
        parsed(well_formed(lines), false) == parsed(lines, true),
        forall|i: int| 0 <= i < well_formed(lines).len() ==> !malformed(#[trigger] well_formed(lines)[i]),
    decreases lines.len(),
{
    if lines.len() > 0 {
        let front = lines.drop_last();
        law_tolerant_skips_malformed(front);
        lemma_first_malformed(well_formed(front));
        if !malformed(lines.last()) {
            assert(well_formed(lines).drop_last() == well_formed(front));
        }
    }
    lemma_first_malformed(well_formed(lines));
}

/// The body of a document with a block holds no delimiter but those that
/// stood behind the block: the two delimiters of the block are gone, and
/// joining what stood before the block to what stood behind it makes no new
/// one.
pub proof fn law_block_delimiters_removed(s: Seq<char>, i: int)
    requires
        block_span(s) is Some,
        marker_at(block_body(s), i),
    ensures
        ({
            let (open, close) = block_span(s).unwrap();
            open <= i && marker_at(trim_start(s.subrange(close + 3, s.len() as int)), i - open)
        }),
{
    let (open, close) = block_span(s).unwrap();
    lemma_block_span(s);
    let before = s.subrange(0, open);
    let after = trim_start(s.subrange(close + 3, s.len() as int));
    let body = block_body(s);
    lemma_trim_start_head(s.subrange(close + 3, s.len() as int));
    assert(body == before + after);
    if i < open {
        assert(open > 0);
        assert(body[open - 1] == s[open - 1]);
        if i + 3 <= open {
            assert(body[i] == s[i]);
            assert(body[i + 1] == s[i + 1]);
            assert(body[i + 2] == s[i + 2]);
            if i > 0 {
                assert(body[i - 1] == s[i - 1]);
            }
            if i + 3 < open {
                assert(body[i + 3] == s[i + 3]);
                if i + 4 < open {
                    assert(body[i + 4] == s[i + 4]);
                } else if i + 4 < body.len() {
                    assert(body[i + 4] == after[0]);
                }
                assert(marker_at(s, i));
            }
        } else if i + 2 <= open {
            assert(body[i + 1] == s[i + 1]);
        } else {
            assert(body[i] == s[i]);
        }
        assert(false);
    } else {
        let k = i - open;
        assert(after[k] == body[i]);
        assert(after[k + 1] == body[i + 1]);
        assert(after[k + 2] == body[i + 2]);
        if k > 0 {
            assert(after[k - 1] == body[i - 1]);
        }
        if k + 3 < after.len() {
            assert(after[k + 3] == body[i + 3]);
            if k + 4 < after.len() {
                assert(after[k + 4] == body[i + 4]);
            }
        }
    }
}

/// Filtering is a projection: a key of the allow-list keeps the value that
/// it had, every other key is gone, and without a list nothing changes.
pub proof fn law_filter_is_projection(es: Entries, allow: Option<Set<Seq<char>>>, k: Seq<char>)
    requires
        distinct_keys(es),
    ensures
        distinct_keys(permitted(es, allow)),
        lookup(permitted(es, allow), k) == match allow {
            Some(keys) => if keys.contains(k) {
                lookup(es, k)
            } else {
                None
            },
            None => lookup(es, k),
        },
{
    if let Some(keys) = allow {
        let r = kept(es, keys);
        lemma_kept_distinct(es, keys);
        lemma_kept_entries(es, keys);
        lemma_key_index(r, k);
        lemma_key_index(es, k);
        if let Some(v) = lookup(r, k) {
            lemma_lookup_is_membership(r, k, v);
            assert(r.contains((k, v)));
            lemma_lookup_is_membership(es, k, v);
        } else if keys.contains(k) {
            if let Some(v) = lookup(es, k) {
                lemma_lookup_is_membership(es, k, v);
                assert(r.contains((k, v)));
                lemma_lookup_is_membership(r, k, v);
            }
        }
    }
}

} // verus!
