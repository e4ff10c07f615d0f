//! Metadata entries as HTML head tags, their values escaped.

use crate::map::{Entries, MetadataMap};
use vstd::prelude::*;
use vstd::string::StringExecFns;

verus! {

/// What stands for `c` in escaped text: an entity for each of the six
/// characters that can open or close markup, and the character itself for
/// every other one.
pub open spec fn escaped_char(c: char) -> Seq<char> {
    if c == '&' {
        seq!['&', 'a', 'm', 'p', ';']
    } else if c == '<' {
        seq!['&', 'l', 't', ';']
    } else if c == '>' {
        seq!['&', 'g', 't', ';']
    } else if c == '"' {
        seq!['&', 'q', 'u', 'o', 't', ';']
    } else if c == '\'' {
        seq!['&', '#', 'x', '2', '7', ';']
    } else if c == '/' {
        seq!['&', '#', 'x', '2', 'F', ';']
    } else {
        seq![c]
    }
}

/// `s` with each character escaped.
pub open spec fn escaped(s: Seq<char>) -> Seq<char>
    decreases s.len(),
{
    if s.len() == 0 {
        Seq::empty()
    } else {
        escaped(s.drop_last()) + escaped_char(s.last())
    }
}

/// The tag for one entry: a title element for the key `title`, a meta element
/// named by the key for every other key. The value is escaped, the key is not.
pub open spec fn tag_of(key: Seq<char>, value: Seq<char>) -> Seq<char> {
    if key == "title"@ {
        "<title>"@ + escaped(value) + "</title>\n"@
    } else {
        "<meta name=\""@ + key + "\" content=\""@ + escaped(value) + "\">\n"@
    }
}

/// The tags of `es`, one line for each entry, in the order of the entries.
pub open spec fn tags_of(es: Entries) -> Seq<char>
    decreases es.len(),
{
    if es.len() == 0 {
        Seq::empty()
    } else {
        tags_of(es.drop_last()) + tag_of(es.last().0, es.last().1)
    }
}

/// Calls `html_escape::encode_safe`, which replaces `&`, `<`, `>`, `"`, `'`
/// and `/` by the entities `&amp;`, `&lt;`, `&gt;`, `&quot;`, `&#x27;` and
/// `&#x2F;` and copies every other character.
#[verifier::external_body]
fn encode_safe(text: &str) -> (encoded: String)
    ensures
        encoded@ == escaped(text@),
{
    html_escape::encode_safe(text).into_owned()
}

/// Appends the tag for one entry to `html`.
fn push_tag(html: &mut String, key: &String, value: &String)
    ensures
        final(html)@ == old(html)@ + tag_of(key@, value@),
{
    let encoded = encode_safe(value.as_str());
    let title = String::from_str("title");
    if *key == title {
        html.append("<title>");
        html.append(encoded.as_str());
        html.append("</title>\n");
        assert(html@ == old(html)@ + ("<title>"@ + escaped(value@) + "</title>\n"@));
    } else {
        html.append("<meta name=\"");
        html.append(key.as_str());
        html.append("\" content=\"");
        html.append(encoded.as_str());
        html.append("\">\n");
        assert(html@ == old(html)@ + ("<meta name=\""@ + key@ + "\" content=\""@ + escaped(value@)
            + "\">\n"@));
    }
}

/// Renders a mapping as HTML head tags, one line for each entry in the order
/// of the entries. An empty mapping gives the empty string.
pub fn metadata_to_html(metadata: &MetadataMap) -> (html: String)
    ensures
        html@ == tags_of(metadata.entries()),
{
    let mut html = String::new();
    let n = metadata.len();
    let mut i: usize = 0;
    while i < n
        invariant
            i <= n,
            n == metadata.entries().len(),
            html@ == tags_of(metadata.entries().take(i as int)),
        decreases n - i,
    {
        push_tag(&mut html, metadata.key_at(i), metadata.value_at(i));
        proof {
            let es = metadata.entries();
            assert(es.take(i + 1).drop_last() == es.take(i as int));
        }
        i += 1;
    }
    assert(metadata.entries().take(n as int) == metadata.entries());
    html
}

} // verus!
