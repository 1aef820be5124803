//! Turns the summary line of a commit message into one changelog line.
//!
//! A summary line holds an optional ticket prefix (`AB-123`), a category
//! keyword from a closed vocabulary, optionally in brackets, and free text in
//! which tag markers (` :ui,crash:`) embed metadata.
mod parser;
mod summary;
mod tags;
mod text;

pub use parser::{BodyElement, FooterElement, ListElement, ParsedCommit, Parser, ParserError};
pub use summary::{parse_summary, SummaryElement};
pub use tags::parse_tags;
