//! What can go wrong while a metadata block is read.

use vstd::prelude::*;
use vstd::string::StringExecFns;

verus! {

/// A failure to read a metadata block.
#[derive(Debug)]
pub enum MetadataError {
    /// A line that is not blank and has no `key: value` shape. It carries the
    /// line as it stood in the document.
    ImproperlyFormattedLine(String),
}

impl MetadataError {
    /// The offending line.
    pub open spec fn line(&self) -> Seq<char> {
        match self {
            MetadataError::ImproperlyFormattedLine(line) => line@,
        }
    }

    /// The text of the message for an offending line.
    pub open spec fn message_of(line: Seq<char>) -> Seq<char> {
        "Improperly formatted metadata line: '"@ + line + "'"@
    }

    /// The message that describes this failure.
    pub fn message(&self) -> (text: String)
        ensures
            text@ == Self::message_of(self.line()),
    {
        match self {
            MetadataError::ImproperlyFormattedLine(line) => {
                let mut text = String::from_str("Improperly formatted metadata line: '");
                text.append(line.as_str());
                text.append("'");
                text
            },
        }
    }
}

} // verus!
