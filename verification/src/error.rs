//! The parse errors: one variant per grammar violation.

use vstd::prelude::*;

verus! {

/// A classified parse error. The set is closed, one variant per grammar
/// violation; `UnexpectedCharacter` carries the offending character.
#[derive(Debug, PartialEq, Eq, Structural)]
pub enum ParseError {
    /// A character stands where the lambda symbol was required, carrying the
    /// character found. The grammar reaches an abstraction only at its
    /// symbol, so `parse` never returns this variant; it stands for the
    /// closed taxonomy.
    UnexpectedCharacter(char),
    /// An opening parenthesis is not matched by a closing one where the
    /// grammar requires it.
    UnmatchedParenthesis,
    /// A lambda abstraction is malformed: its bound variable or its dot
    /// separator is missing or invalid.
    InvalidLambda,
    /// An atom is missing where an application requires one, or characters
    /// trail a complete term.
    InvalidApplication,
    /// An identifier is missing where one is required.
    InvalidVariable,
}

impl ParseError {
    /// The fixed display text of this error.
    pub open spec fn spec_message(self) -> Seq<char> {
        match self {
            ParseError::UnexpectedCharacter(c) => "Unexpected character: "@.push(c),
            ParseError::UnmatchedParenthesis => "Unmatched parenthesis"@,
            ParseError::InvalidLambda => "Invalid lambda expression"@,
            ParseError::InvalidApplication => "Invalid application expression"@,
            ParseError::InvalidVariable => "Invalid variable expression"@,
        }
    }

    /// The display text of this error, one fixed template per variant.
    pub fn message(&self) -> (r: String)
        ensures
            r@ == self.spec_message(),
    {
        match self {
            ParseError::UnexpectedCharacter(c) => {
                let mut s = String::from_str("Unexpected character: ");
                crate::chars::push_char(&mut s, *c);
                s
            },
            ParseError::UnmatchedParenthesis => String::from_str("Unmatched parenthesis"),
            ParseError::InvalidLambda => String::from_str("Invalid lambda expression"),
            ParseError::InvalidApplication => String::from_str("Invalid application expression"),
            ParseError::InvalidVariable => String::from_str("Invalid variable expression"),
        }
    }
}

} // verus!
