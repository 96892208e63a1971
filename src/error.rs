//! The error that every error of the crate converts to.
use vstd::prelude::*;

use crate::attribute::{InvalidAttributeName, InvalidAttributeValue};
use crate::block_name::InvalidBlockName;
use crate::parser::ParseError;
use crate::text::push_char;

verus! {

/// Error returned when an unexpected char is present.
#[derive(Clone, Copy, Debug, PartialEq, Eq, Structural)]
pub struct IllegalChar(pub char);

impl IllegalChar {
    /// A message that names the character.
    pub fn to_string(&self) -> (r: String)
        ensures
            r@ == "Illegal char: `"@ + seq![self.0] + "`"@,
    {
        let mut r = String::from_str("Illegal char: `");
        push_char(&mut r, self.0);
        r.append("`");
        r
    }
}

/// Which error an [`Error`] holds.
#[derive(Debug)]
pub enum ErrorKind {
    Parse(ParseError),
    InvalidBlockName(InvalidBlockName),
    InvalidAttributeName(InvalidAttributeName),
    InvalidAttributeValue(InvalidAttributeValue),
}

/// A generic error.
///
/// This error is less specific than others in the crate, but they can all be converted to this
/// error.
#[derive(Debug)]
pub struct Error(ErrorKind);

impl Error {
    pub closed spec fn kind(&self) -> &ErrorKind {
        &self.0
    }

    /// The error that this one was made from.
    pub fn get_ref(&self) -> (r: &ErrorKind)
        ensures
            r == self.kind(),
    {
        let Self(inner) = self;
        inner
    }

    /// The message of the error that this one was made from.
    pub fn to_string(&self) -> (r: String)
        ensures
            r@ == match self.kind() {
                ErrorKind::Parse(e) => e.message(),
                ErrorKind::InvalidBlockName(e) => e.message(),
                ErrorKind::InvalidAttributeName(e) => e.message(),
                ErrorKind::InvalidAttributeValue(e) => e.message(),
            },
    {
        match self.get_ref() {
            ErrorKind::Parse(e) => e.to_string(),
            ErrorKind::InvalidBlockName(e) => e.to_string(),
            ErrorKind::InvalidAttributeName(e) => e.to_string(),
            ErrorKind::InvalidAttributeValue(e) => e.to_string(),
        }
    }
}

impl From<ParseError> for Error {
    fn from(err: ParseError) -> Self {
        Self(ErrorKind::Parse(err))
    }
}

impl vstd::std_specs::convert::FromSpecImpl<ParseError> for Error {
    open spec fn obeys_from_spec() -> bool {
        true
    }

    closed spec fn from_spec(v: ParseError) -> Self {
        Error(ErrorKind::Parse(v))
    }
}

impl From<InvalidBlockName> for Error {
    fn from(err: InvalidBlockName) -> Self {
        Self(ErrorKind::InvalidBlockName(err))
    }
}

impl vstd::std_specs::convert::FromSpecImpl<InvalidBlockName> for Error {
    open spec fn obeys_from_spec() -> bool {
        true
    }

    closed spec fn from_spec(v: InvalidBlockName) -> Self {
        Error(ErrorKind::InvalidBlockName(v))
    }
}

impl From<InvalidAttributeName> for Error {
    fn from(err: InvalidAttributeName) -> Self {
        Self(ErrorKind::InvalidAttributeName(err))
    }
}

impl vstd::std_specs::convert::FromSpecImpl<InvalidAttributeName> for Error {
    open spec fn obeys_from_spec() -> bool {
        true
    }

    closed spec fn from_spec(v: InvalidAttributeName) -> Self {
        Error(ErrorKind::InvalidAttributeName(v))
    }
}

impl From<InvalidAttributeValue> for Error {
    fn from(err: InvalidAttributeValue) -> Self {
        Self(ErrorKind::InvalidAttributeValue(err))
    }
}

impl vstd::std_specs::convert::FromSpecImpl<InvalidAttributeValue> for Error {
    open spec fn obeys_from_spec() -> bool {
        true
    }

    closed spec fn from_spec(v: InvalidAttributeValue) -> Self {
        Error(ErrorKind::InvalidAttributeValue(v))
    }
}

/// An [`Error`] made from a parsing error holds that error, so its message is that error's.
pub proof fn lemma_error_from_parse(e: ParseError)
    ensures
        *<Error as vstd::std_specs::convert::FromSpec<ParseError>>::from_spec(e).kind()
            == ErrorKind::Parse(e),
{
}

/// An [`Error`] made from a refused block name holds that error, so its message is that error's.
pub proof fn lemma_error_from_invalid_block_name(e: InvalidBlockName)
    ensures
        *<Error as vstd::std_specs::convert::FromSpec<InvalidBlockName>>::from_spec(e).kind()
            == ErrorKind::InvalidBlockName(e),
{
}

/// An [`Error`] made from a refused attribute name holds that error, so its message is that error's.
pub proof fn lemma_error_from_invalid_attribute_name(e: InvalidAttributeName)
    ensures
        *<Error as vstd::std_specs::convert::FromSpec<InvalidAttributeName>>::from_spec(e).kind()
            == ErrorKind::InvalidAttributeName(e),
{
}

/// An [`Error`] made from a refused attribute value holds that error, so its message is that error's.
pub proof fn lemma_error_from_invalid_attribute_value(e: InvalidAttributeValue)
    ensures
        *<Error as vstd::std_specs::convert::FromSpec<InvalidAttributeValue>>::from_spec(e).kind()
            == ErrorKind::InvalidAttributeValue(e),
{
}

} // verus!
