//! The preprocessor: reads the metadata block of each chapter, filters its
//! entries and puts them back in front of the chapter as HTML head tags.

use crate::block::{block_body, block_interior, body_around, find_block};
use crate::error::MetadataError;
use crate::filter::{filter_tags, key_set, permitted};
use crate::map::{Entries, MetadataMap};
use crate::parse::{
    lines_of, malformed_among, malformed_lines_range, parse_lines_range, parsed, texts_of,
};
use crate::render::{metadata_to_html, tags_of};
use crate::text::chars_of;
use vstd::prelude::*;
use vstd::string::StringExecFns;

verus! {

/// The name under which the preprocessor is known.
pub const NAME: &'static str = "metadata-preprocessor";

/// What reading a document gives: the entries of its metadata block and the
/// body without the block, or the line at which a strict reading stopped. A
/// document without a block has no entries and is its own body.
pub open spec fn document_parsed(s: Seq<char>, tolerant: bool) -> Result<
    (Entries, Seq<char>),
    Seq<char>,
> {
    match block_interior(s) {
        Some(interior) => match parsed(lines_of(interior), tolerant) {
            Ok(es) => Ok((es, block_body(s))),
            Err(line) => Err(line),
        },
        None => Ok((Entries::empty(), s)),
    }
}

/// The lines of the metadata block of a document that a tolerant reading
/// passes over, in their order.
pub open spec fn document_skipped(s: Seq<char>) -> Seq<Seq<char>> {
    match block_interior(s) {
        Some(interior) => malformed_among(lines_of(interior)),
        None => Seq::empty(),
    }
}

/// What a document becomes: its body behind the tags of the entries that the
/// allow-list lets through, with a line break between the two; the body alone
/// where no entry is left. A strict reading that stops gives the line instead.
pub open spec fn transformed(s: Seq<char>, allow: Option<Set<Seq<char>>>, tolerant: bool) -> Result<
    Seq<char>,
    Seq<char>,
> {
    match document_parsed(s, tolerant) {
        Ok((es, body)) => {
            let shown = permitted(es, allow);
            if shown.len() == 0 {
                Ok(body)
            } else {
                Ok(tags_of(shown) + seq!['\n'] + body)
            }
        },
        Err(line) => Err(line),
    }
}

/// The message for a chapter whose metadata block could not be read.
pub open spec fn chapter_message(name: Seq<char>, line: Seq<char>) -> Seq<char> {
    "Error parsing metadata in chapter '"@ + name + "': "@ + MetadataError::message_of(line)
}

/// `parts` with a line break between each two of them.
pub open spec fn joined(parts: Seq<Seq<char>>) -> Seq<char>
    decreases parts.len(),
{
    if parts.len() == 0 {
        Seq::empty()
    } else if parts.len() == 1 {
        parts[0]
    } else {
        joined(parts.drop_last()) + seq!['\n'] + parts.last()
    }
}

/// Reads the metadata block of a document. Returns the entries of the block
/// and the body of the document without the block. Under the strict policy
/// (`continue_on_error` is false) the first malformed line of the block is
/// returned as an error.
pub fn parse_metadata(content: &str, continue_on_error: bool) -> (r: Result<
    (MetadataMap, String),
    MetadataError,
>)
    ensures
        match r {
            Ok((metadata, body)) => document_parsed(content@, continue_on_error) == Ok::<
                (Entries, Seq<char>),
                Seq<char>,
            >((metadata.entries(), body@)),
            Err(e) => document_parsed(content@, continue_on_error) == Err::<
                (Entries, Seq<char>),
                Seq<char>,
            >(e.line()),
        },
{
    let v = chars_of(content);
    match find_block(&v) {
        Some((open, close)) => {
            match parse_lines_range(content, &v, open + 3, close, continue_on_error) {
                Ok(metadata) => Ok((metadata, body_around(content, &v, open, close))),
                Err(e) => Err(e),
            }
        },
        None => Ok((MetadataMap::new(), content.to_owned())),
    }
}

/// The lines of the metadata block of a document that a tolerant reading
/// passes over, as they stand in the document and in their order: what a
/// caller may want to warn about.
pub fn skipped_lines(content: &str) -> (r: Vec<String>)
    ensures
        texts_of(r@) == document_skipped(content@),
{
    let v = chars_of(content);
    match find_block(&v) {
        Some((open, close)) => malformed_lines_range(content, &v, open + 3, close),
        None => {
            let r: Vec<String> = Vec::new();
            assert(texts_of(r@) == Seq::<Seq<char>>::empty());
            r
        },
    }
}

/// A chapter of a book: its name and its text.
#[derive(Debug)]
pub struct Chapter {
    pub name: String,
    pub content: String,
}

/// The preprocessor with its configuration: the keys that may be rendered,
/// if they are restricted, and the policy for malformed lines.
pub struct Metadata {
    valid_tags: Option<Vec<String>>,
    continue_on_error: bool,
}

impl Metadata {
    /// The keys that may be rendered; `None` where every key may.
    pub closed spec fn allow_list(&self) -> Option<Set<Seq<char>>> {
        match self.valid_tags {
            Some(tags) => Some(key_set(tags@)),
            None => None,
        }
    }

    /// Whether malformed lines are passed over.
    pub closed spec fn tolerant(&self) -> bool {
        self.continue_on_error
    }

    /// What `content` becomes under this configuration.
    pub open spec fn outcome(&self, content: Seq<char>) -> Result<Seq<char>, Seq<char>> {
        transformed(content, self.allow_list(), self.tolerant())
    }

    /// The text of a chapter after a run: transformed, or as it was where its
    /// metadata block could not be read.
    pub open spec fn content_after(&self, chapter: Chapter) -> Seq<char> {
        match self.outcome(chapter.content@) {
            Ok(text) => text,
            Err(_) => chapter.content@,
        }
    }

    /// The messages of the chapters whose metadata block cannot be read, in
    /// the order of the chapters.
    pub open spec fn failures(&self, chapters: Seq<Chapter>) -> Seq<Seq<char>>
        decreases chapters.len(),
    {
        if chapters.len() == 0 {
            Seq::empty()
        } else {
            let earlier = self.failures(chapters.drop_last());
            match self.outcome(chapters.last().content@) {
                Ok(_) => earlier,
                Err(line) => earlier.push(chapter_message(chapters.last().name@, line)),
            }
        }
    }

    /// A preprocessor that renders the keys in `valid_tags`, or every key
    /// where that is `None`. Malformed lines are passed over unless
    /// `continue_on_error` is `Some(false)`.
    pub fn new(valid_tags: Option<Vec<String>>, continue_on_error: Option<bool>) -> (m: Metadata)
        ensures
            m.allow_list() == match valid_tags {
                Some(tags) => Some(key_set(tags@)),
                None => None,
            },
            m.tolerant() == match continue_on_error {
                Some(flag) => flag,
                None => true,
            },
    {
        let continue_on_error = match continue_on_error {
            Some(flag) => flag,
            None => true,
        };
        Metadata { valid_tags, continue_on_error }
    }

    /// The name under which the preprocessor is known.
    pub fn name(&self) -> (name: &'static str)
        ensures
            name@ == NAME@,
    {
        NAME
    }

    /// Transforms the text of one chapter: the metadata block is taken out
    /// and the tags of its permitted entries are put in front of the body.
    pub fn transform(&self, content: &str) -> (r: Result<String, MetadataError>)
        ensures
            match r {
                Ok(text) => self.outcome(content@) == Ok::<Seq<char>, Seq<char>>(text@),
                Err(e) => self.outcome(content@) == Err::<Seq<char>, Seq<char>>(e.line()),
            },
    {
        match parse_metadata(content, self.continue_on_error) {
            Ok((metadata, body)) => {
                let shown = filter_tags(metadata, &self.valid_tags);
                if shown.is_empty() {
                    Ok(body)
                } else {
                    let mut text = metadata_to_html(&shown);
                    proof {
                        reveal_strlit("\n");
                        assert("\n"@ == seq!['\n']);
                    }
                    text.append("\n");
                    text.append(body.as_str());
                    Ok(text)
                }
            },
            Err(e) => Err(e),
        }
    }

    /// Transforms every chapter in turn. A chapter whose metadata block
    /// cannot be read keeps its text and adds a message. Returns the
    /// messages, one to a line, if there are any.
    pub fn run(&self, chapters: &mut Vec<Chapter>) -> (r: Result<(), String>)
        ensures
            final(chapters)@.len() == old(chapters)@.len(),
            forall|i: int|
                0 <= i < old(chapters)@.len() ==> (#[trigger] final(chapters)@[i]).name@ == old(
                    chapters,
                )@[i].name@ && final(chapters)@[i].content@ == self.content_after(old(chapters)@[i]),
            match r {
                Ok(_) => self.failures(old(chapters)@).len() == 0,
                Err(message) => self.failures(old(chapters)@).len() > 0 && message@ == joined(
                    self.failures(old(chapters)@),
                ),
            },
    {
        let n = chapters.len();
        let mut message = String::new();
        let mut failed = false;
        let ghost mut errors: Seq<Seq<char>> = Seq::empty();
        let mut i: usize = 0;
        while i < n
            invariant
                i <= n,
                n == chapters@.len(),
                n == old(chapters)@.len(),
                forall|j: int|
                    0 <= j < i ==> (#[trigger] chapters@[j]).name@ == old(chapters)@[j].name@
                        && chapters@[j].content@ == self.content_after(old(chapters)@[j]),
                forall|j: int| i <= j < n ==> chapters@[j] == old(chapters)@[j],
                errors == self.failures(old(chapters)@.take(i as int)),
                failed == (errors.len() > 0),
                message@ == joined(errors),
            decreases n - i,
        {
            proof {
                assert(old(chapters)@.take(i + 1).drop_last() == old(chapters)@.take(i as int));
            }
            match self.transform(chapters[i].content.as_str()) {
                Ok(text) => {
                    chapters[i].content = text;
                },
                Err(e) => {
                    let ghost earlier = errors;
                    let ghost line = chapter_message(chapters@[i as int].name@, e.line());
                    if failed {
                        message.append("\n");
                    }
                    let ghost start = message@;
                    message.append("Error parsing metadata in chapter '");
                    message.append(chapters[i].name.as_str());
                    message.append("': ");
                    message.append(e.message().as_str());
                    failed = true;
                    proof {
                        reveal_strlit("\n");
                        assert("\n"@ == seq!['\n']);
                        errors = earlier.push(line);
                        assert(errors.drop_last() == earlier);
                        assert(message@ == start + line);
                        if earlier.len() == 0 {
                            assert(start + line == line);
                        } else {
                            assert(start + line == joined(earlier) + seq!['\n'] + line);
                        }
                    }
                },
            }
            i += 1;
        }
        assert(old(chapters)@.take(n as int) == old(chapters)@);
        if failed {
            Err(message)
        } else {
            Ok(())
        }
    }
}

} // verus!
