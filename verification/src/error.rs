//! The closed set of lexical defects a scan or a decode can report.

use vstd::prelude::*;

verus! {

/// A parsing error.
///
/// Errors are purely lexical; none carries a source position. Every lazy
/// sequence in the crate yields at most one error and then behaves as
/// exhausted.
#[derive(Debug, Clone, Copy, PartialEq, Eq, Structural)]
pub enum Error {
    /// invalid attribute name
    AttrInvalidName,
    /// '=' character not found in attribute
    AttrMissingEq,
    /// quote character not found in attribute
    AttrMissingQuote,
    /// end quote character not found in attribute
    AttrMissingEndQuote,
    /// invalid quote character in attribute
    AttrInvalidQuote,
    /// unterminated entity (missing ';')
    UnterminatedEntity,
    /// invalid named entity
    InvalidNamedEntity,
    /// invalid numeric entity
    InvalidNumericEntity,
    /// unterminated comment (missing '-->')
    UnterminatedComment,
    /// unterminated PI (missing '?>')
    UnterminatedPi,
    /// unterminated CDATA section (missing ']]>')
    UnterminatedCdata,
    /// unterminated doctype declaration (missing '>')
    UnterminatedDoctype,
    /// unterminated doctype subset (missing ']')
    UnterminatedDoctypeSubset,
    /// unterminated tag (missing '>')
    UnterminatedTag,
    /// unterminated closing tag (missing '>')
    UnterminatedClosingTag,
    /// invalid tag name
    InvalidTagName,
}

impl Error {
    /// A static human-readable description of the defect.
    pub fn message(&self) -> (r: &'static str)
        ensures
            match *self {
                Error::AttrInvalidName => r@ == "invalid attribute name"@,
                Error::AttrMissingEq => r@ == "'=' character not found in attribute"@,
                Error::AttrMissingQuote => r@ == "quote character not found in attribute"@,
                Error::AttrMissingEndQuote => r@ == "end quote character not found in attribute"@,
                Error::AttrInvalidQuote => r@ == "invalid quote character in attribute"@,
                Error::UnterminatedEntity => r@ == "unterminated entity (missing ';')"@,
                Error::InvalidNamedEntity => r@ == "invalid named entity"@,
                Error::InvalidNumericEntity => r@ == "invalid numeric entity"@,
                Error::UnterminatedComment => r@ == "unterminated comment (missing '-->')"@,
                Error::UnterminatedPi => r@ == "unterminated PI (missing '?>')"@,
                Error::UnterminatedCdata => r@ == "unterminated CDATA section (missing ']]>')"@,
                Error::UnterminatedDoctype => r@ == "unterminated doctype declaration (missing '>')"@,
                Error::UnterminatedDoctypeSubset => r@ == "unterminated doctype subset (missing ']')"@,
                Error::UnterminatedTag => r@ == "unterminated tag (missing '>')"@,
                Error::UnterminatedClosingTag => r@ == "unterminated closing tag (missing '>')"@,
                Error::InvalidTagName => r@ == "invalid tag name"@,
            },
    {
        match *self {
            Error::AttrInvalidName => "invalid attribute name",
            Error::AttrMissingEq => "'=' character not found in attribute",
            Error::AttrMissingQuote => "quote character not found in attribute",
            Error::AttrMissingEndQuote => "end quote character not found in attribute",
            Error::AttrInvalidQuote => "invalid quote character in attribute",
            Error::UnterminatedEntity => "unterminated entity (missing ';')",
            Error::InvalidNamedEntity => "invalid named entity",
            Error::InvalidNumericEntity => "invalid numeric entity",
            Error::UnterminatedComment => "unterminated comment (missing '-->')",
            Error::UnterminatedPi => "unterminated PI (missing '?>')",
            Error::UnterminatedCdata => "unterminated CDATA section (missing ']]>')",
            Error::UnterminatedDoctype => "unterminated doctype declaration (missing '>')",
            Error::UnterminatedDoctypeSubset => "unterminated doctype subset (missing ']')",
            Error::UnterminatedTag => "unterminated tag (missing '>')",
            Error::UnterminatedClosingTag => "unterminated closing tag (missing '>')",
            Error::InvalidTagName => "invalid tag name",
        }
    }
}

} // verus!
