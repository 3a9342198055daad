//! The ways in which a translation can fail.

use vstd::prelude::*;
use vstd::string::StringExecFns;

verus! {

/// Why a program could not be translated. Every failure ends the whole
/// translation: there is no partial output.
#[derive(Debug, Clone, PartialEq, Eq)]
pub enum AssembleError {
    /// A line is neither blank, a comment, nor an instruction of a known
    /// form. Holds the line as it stands in the source.
    Parse(String),
    /// A label is declared under a name that is already bound. Holds the name.
    DuplicateLabel(String),
    /// A computation, destination or jump token is not in its table. Holds
    /// the token.
    UnknownMnemonic(String),
    /// A decimal literal does not fit in 15 bits. Holds the literal.
    OutOfRangeLiteral(String),
    /// A symbol stands for an address that does not fit in 15 bits. Holds
    /// the symbol.
    OutOfRangeAddress(String),
}

/// An `AssembleError` over sequences of characters.
pub enum Failure {
    Parse(Seq<char>),
    DuplicateLabel(Seq<char>),
    UnknownMnemonic(Seq<char>),
    OutOfRangeLiteral(Seq<char>),
    OutOfRangeAddress(Seq<char>),
}

impl View for AssembleError {
    type V = Failure;

    open spec fn view(&self) -> Failure {
        match self {
            AssembleError::Parse(line) => Failure::Parse(line@),
            AssembleError::DuplicateLabel(symbol) => Failure::DuplicateLabel(symbol@),
            AssembleError::UnknownMnemonic(token) => Failure::UnknownMnemonic(token@),
            AssembleError::OutOfRangeLiteral(literal) => Failure::OutOfRangeLiteral(literal@),
            AssembleError::OutOfRangeAddress(symbol) => Failure::OutOfRangeAddress(symbol@),
        }
    }
}

/// What a fallible step gave, over sequences of characters.
pub open spec fn outcome(r: Result<String, AssembleError>) -> Result<Seq<char>, Failure> {
    match r {
        Ok(text) => Ok(text@),
        Err(e) => Err(e@),
    }
}

impl Failure {
    /// The text that the failure carries.
    pub open spec fn subject(self) -> Seq<char> {
        match self {
            Failure::Parse(s) => s,
            Failure::DuplicateLabel(s) => s,
            Failure::UnknownMnemonic(s) => s,
            Failure::OutOfRangeLiteral(s) => s,
            Failure::OutOfRangeAddress(s) => s,
        }
    }

    /// The words that introduce the failure in a message.
    pub open spec fn heading(self) -> Seq<char> {
        match self {
            Failure::Parse(_) => "Unknown command: "@,
            Failure::DuplicateLabel(_) => "Duplicate label: "@,
            Failure::UnknownMnemonic(_) => "Unknown mnemonic: "@,
            Failure::OutOfRangeLiteral(_) => "Literal out of range: "@,
            Failure::OutOfRangeAddress(_) => "Address out of range: "@,
        }
    }
}

impl AssembleError {
    /// A line of text for a person: what went wrong, and on which text.
    pub fn message(&self) -> (text: String)
        ensures
            text@ == self@.heading() + self@.subject(),
    {
        match self {
            AssembleError::Parse(s) => String::from_str("Unknown command: ").concat(s.as_str()),
            AssembleError::DuplicateLabel(s) => String::from_str("Duplicate label: ").concat(
                s.as_str(),
            ),
            AssembleError::UnknownMnemonic(s) => String::from_str("Unknown mnemonic: ").concat(
                s.as_str(),
            ),
            AssembleError::OutOfRangeLiteral(s) => String::from_str(
                "Literal out of range: ",
            ).concat(s.as_str()),
            AssembleError::OutOfRangeAddress(s) => String::from_str(
                "Address out of range: ",
            ).concat(s.as_str()),
        }
    }
}

} // verus!
