//! The error values that tokenizing and binding can produce.

use vstd::prelude::*;

verus! {

/// The ways a numeric argument can fail to convert to an integer.
#[derive(Clone, Copy, Debug, PartialEq, Eq, Structural)]
pub enum IntParseError {
    /// The text was empty.
    Empty,
    /// A character was not a digit of the expected radix, or a sign was
    /// not allowed where it stood.
    InvalidDigit,
    /// The value was too large for the target type.
    PosOverflow,
    /// The value was too small for the target type.
    NegOverflow,
}

/// The error type used in this crate.
#[derive(Clone, Debug, PartialEq, Eq)]
pub enum SchmargsError {
    /// A token's textual conversion to a number failed.
    ParseInt(IntParseError),
    /// Passed a short flag that doesn't exist.
    NoSuchShortFlag(char),
    /// Passed a long flag that doesn't exist.
    NoSuchLongFlag(String),
    /// Did not expect this positional value.
    UnexpectedValue(String),
    /// Expected a value for the named field.
    ExpectedValue(String),
}

/// Mathematical image of a [`SchmargsError`]: each carried string is seen
/// as its character sequence.
pub enum ErrorV {
    ParseInt(IntParseError),
    NoSuchShortFlag(char),
    NoSuchLongFlag(Seq<char>),
    UnexpectedValue(Seq<char>),
    ExpectedValue(Seq<char>),
}

impl View for SchmargsError {
    type V = ErrorV;

    open spec fn view(&self) -> ErrorV {
        match self {
            SchmargsError::ParseInt(e) => ErrorV::ParseInt(*e),
            SchmargsError::NoSuchShortFlag(c) => ErrorV::NoSuchShortFlag(*c),
            SchmargsError::NoSuchLongFlag(s) => ErrorV::NoSuchLongFlag(s@),
            SchmargsError::UnexpectedValue(s) => ErrorV::UnexpectedValue(s@),
            SchmargsError::ExpectedValue(s) => ErrorV::ExpectedValue(s@),
        }
    }
}

impl DeepView for SchmargsError {
    type V = ErrorV;

    open spec fn deep_view(&self) -> ErrorV {
        self.view()
    }
}

/// A version of [`SchmargsError`] that no longer carries the offending
/// token, built from [`SchmargsError::strip`].
#[derive(Clone, Debug, PartialEq, Eq)]
pub enum StrippedSchmargsError {
    /// See [`SchmargsError::ParseInt`].
    ParseInt(IntParseError),
    /// See [`SchmargsError::NoSuchShortFlag`].
    NoSuchShortFlag(char),
    /// See [`SchmargsError::NoSuchLongFlag`].
    NoSuchLongFlag,
    /// See [`SchmargsError::UnexpectedValue`].
    UnexpectedValue,
    /// See [`SchmargsError::ExpectedValue`].
    ExpectedValue(String),
}

/// What stripping an error keeps: the kind always, the offending character
/// or field name where the stripped form still carries it.
pub open spec fn spec_strip(e: SchmargsError) -> StrippedSchmargsError {
    match e {
        SchmargsError::ParseInt(v) => StrippedSchmargsError::ParseInt(v),
        SchmargsError::NoSuchShortFlag(c) => StrippedSchmargsError::NoSuchShortFlag(c),
        SchmargsError::NoSuchLongFlag(_) => StrippedSchmargsError::NoSuchLongFlag,
        SchmargsError::UnexpectedValue(_) => StrippedSchmargsError::UnexpectedValue,
        SchmargsError::ExpectedValue(n) => StrippedSchmargsError::ExpectedValue(n),
    }
}

impl SchmargsError {
    /// Strip the carried token from the error, keeping only what outlives
    /// the argument list.
    pub fn strip(self) -> (r: StrippedSchmargsError)
        ensures
            r == spec_strip(self),
    {
        match self {
            SchmargsError::ParseInt(v) => StrippedSchmargsError::ParseInt(v),
            SchmargsError::NoSuchShortFlag(c) => StrippedSchmargsError::NoSuchShortFlag(c),
            SchmargsError::NoSuchLongFlag(_) => StrippedSchmargsError::NoSuchLongFlag,
            SchmargsError::UnexpectedValue(_) => StrippedSchmargsError::UnexpectedValue,
            SchmargsError::ExpectedValue(n) => StrippedSchmargsError::ExpectedValue(n),
        }
    }
}

impl From<SchmargsError> for StrippedSchmargsError {
    fn from(e: SchmargsError) -> (r: StrippedSchmargsError) {
        e.strip()
    }
}

impl vstd::std_specs::convert::FromSpecImpl<SchmargsError> for StrippedSchmargsError {
    open spec fn obeys_from_spec() -> bool {
        true
    }

    open spec fn from_spec(e: SchmargsError) -> StrippedSchmargsError {
        spec_strip(e)
    }
}

} // verus!
