//! Front-matter metadata for book chapters: extraction, parsing, filtering and
//! rendering as HTML head tags.

pub mod block;
pub mod error;
pub mod filter;
pub mod laws;
pub mod map;
pub mod metadata;
pub mod parse;
pub mod render;
pub mod text;

pub use block::extract_block;
pub use error::MetadataError;
pub use filter::filter_tags;
pub use map::MetadataMap;
pub use metadata::{parse_metadata, skipped_lines, Chapter, Metadata, NAME};
pub use parse::{malformed_lines, parse_line, parse_lines};
pub use render::metadata_to_html;
