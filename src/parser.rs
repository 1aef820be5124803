//! Parsing a whole commit message into its changelog line.
use vstd::prelude::*;
use crate::summary::{parse_summary, render_of, run_end, scan_run, summary_of, CharClass, SummaryElement};
use crate::text::chars_of;

verus! {

/// Why a commit message could not be parsed.
#[derive(Debug)]
pub enum ParserError {
    /// The summary line, as it stands, does not follow the grammar.
    SummaryParsing(String),
    /// The message has no line at all.
    CommitMessageLength,
}

impl ParserError {
    /// A sentence that describes the error.
    pub fn message(&self) -> (r: String)
        ensures
            r@ == match self {
                ParserError::SummaryParsing(line) => "Could not parse commit message summary: "@
                    + line@,
                ParserError::CommitMessageLength => "Commit message length too small."@,
            },
    {
        match self {
            ParserError::SummaryParsing(line) => {
                let mut r = String::from_str("Could not parse commit message summary: ");
                r.append(line.as_str());
                r
            },
            ParserError::CommitMessageLength => String::from_str(
                "Commit message length too small.",
            ),
        }
    }
}

/// One item of a list in a commit body.
pub struct ListElement {
    category: String,
    text: String,
    tags: Vec<String>,
}

/// A part of a commit body.
pub enum BodyElement {
    List(Vec<ListElement>),
    Paragraph(String),
}

/// A `key: value` line of a commit footer.
pub struct FooterElement {
    key: String,
    value: String,
}

/// A commit message parsed in full.
pub struct ParsedCommit {
    summary: SummaryElement,
    body: Vec<BodyElement>,
    footer: Vec<FooterElement>,
}

/// The first line of `m`, as `str::lines` gives it: up to the first line feed,
/// without a carriage return just before it. `None` where `m` is empty.
pub open spec fn first_line(m: Seq<char>) -> Option<Seq<char>> {
    let k = run_end(m, 0, CharClass::InLine);
    if m.len() == 0 {
        None
    } else if k < m.len() && k > 0 && m[k - 1] == '\r' {
        Some(m.take(k - 1))
    } else {
        Some(m.take(k))
    }
}

/// Parses commit messages into changelog lines.
pub struct Parser;

impl Parser {
    /// Parses a single commit message and returns its changelog line.
    pub fn parse_commit_message(&self, message: &str) -> (r: Result<String, ParserError>)
        ensures
            match first_line(message@) {
                None => r matches Err(ParserError::CommitMessageLength),
                Some(line) => match summary_of(line) {
                    None => r matches Err(ParserError::SummaryParsing(l)) && l@ == line,
                    Some(v) => r matches Ok(out) && out@ == render_of(v),
                },
            },
    {
        let chars = chars_of(message);
        let n = chars.len();
        if n == 0 {
            return Err(ParserError::CommitMessageLength);
        }
        let k = scan_run(&chars, 0, CharClass::InLine);
        let end = if k < n && k > 0 && chars[k - 1] == '\r' {
            k - 1
        } else {
            k
        };
        let line = message.substring_char(0, end);
        match parse_summary(line) {
            Some(summary) => Ok(summary.render()),
            None => Err(ParserError::SummaryParsing(line.to_owned())),
        }
    }
}

} // verus!
