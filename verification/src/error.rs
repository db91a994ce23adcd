//! The typed failures a single file can produce. Every one of them is
//! caught at the loader boundary and skips that file alone.

use vstd::prelude::*;

verus! {

/// Why one file yielded no post.
///
/// `Io` stands for an unreadable file; the remaining variants are the
/// format failures: a missing delimiter, a frontmatter block that does
/// not decode to the schema, and a date outside `YYYY-MM-DD`.
#[derive(Clone, Copy, PartialEq, Eq, Structural, Debug)]
pub enum ParseError {
    Io,
    MissingOpeningDelimiter,
    MissingClosingDelimiter,
    InvalidFrontmatter,
    InvalidDate,
}

impl ParseError {
    /// Whether this is a format failure rather than an unreadable file.
    pub fn is_format_error(&self) -> (r: bool)
        ensures
            r == !(*self is Io),
    {
        match self {
            ParseError::Io => false,
            _ => true,
        }
    }

    /// A short description of the failure.
    pub fn message(&self) -> (r: &'static str)
        ensures
            *self is Io ==> r@ == "file unreadable"@,
            *self is MissingOpeningDelimiter ==> r@ == "missing opening delimiter"@,
            *self is MissingClosingDelimiter ==> r@ == "missing closing delimiter"@,
            *self is InvalidFrontmatter ==> r@ == "frontmatter does not decode"@,
            *self is InvalidDate ==> r@ == "date is not YYYY-MM-DD"@,
    {
        match self {
            ParseError::Io => "file unreadable",
            ParseError::MissingOpeningDelimiter => "missing opening delimiter",
            ParseError::MissingClosingDelimiter => "missing closing delimiter",
            ParseError::InvalidFrontmatter => "frontmatter does not decode",
            ParseError::InvalidDate => "date is not YYYY-MM-DD",
        }
    }
}

} // verus!
