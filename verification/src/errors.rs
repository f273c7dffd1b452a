//! Errors that can occur during the parsing of Type Language definitions.

use vstd::prelude::*;

verus! {

/// The error type for the parsing operation of definitions.
#[derive(Debug, PartialEq)]
pub enum ParseError {
    /// The definition is empty.
    Empty,
    /// One of the parameters from this definition was invalid.
    InvalidParam(ParamParseError),
    /// The name information is missing from the definition.
    MissingName,
    /// The type information is missing from the definition.
    MissingType,
    /// The parser does not know how to parse the definition.
    NotImplemented,
    /// The file contained an unknown separator (such as `---foo---`).
    UnknownSeparator,
}

/// The error type for the parsing operation of parameters.
#[derive(Debug, PartialEq)]
pub enum ParamParseError {
    /// The parameter was empty.
    Empty,
    /// The generic argument was invalid.
    InvalidGeneric,
    /// The brace-delimited token is not a well-formed generic type
    /// definition.
    MissingDef,
    /// The parser does not know how to parse the parameter.
    NotImplemented,
    /// The parameter is a generic type definition such as `{X:Type}`,
    /// which the caller registers instead of storing as a field.
    TypeDef { name: String },
}

/// The mathematical value of a [`ParamParseError`].
pub ghost enum ParamParseErrorV {
    Empty,
    InvalidGeneric,
    MissingDef,
    NotImplemented,
    TypeDef { name: Seq<char> },
}

/// The mathematical value of a [`ParseError`].
pub ghost enum ParseErrorV {
    Empty,
    InvalidParam(ParamParseErrorV),
    MissingName,
    MissingType,
    NotImplemented,
    UnknownSeparator,
}

impl View for ParamParseError {
    type V = ParamParseErrorV;

    open spec fn view(&self) -> ParamParseErrorV {
        match self {
            ParamParseError::Empty => ParamParseErrorV::Empty,
            ParamParseError::InvalidGeneric => ParamParseErrorV::InvalidGeneric,
            ParamParseError::MissingDef => ParamParseErrorV::MissingDef,
            ParamParseError::NotImplemented => ParamParseErrorV::NotImplemented,
            ParamParseError::TypeDef { name } => ParamParseErrorV::TypeDef { name: name@ },
        }
    }
}

impl View for ParseError {
    type V = ParseErrorV;

    open spec fn view(&self) -> ParseErrorV {
        match self {
            ParseError::Empty => ParseErrorV::Empty,
            ParseError::InvalidParam(e) => ParseErrorV::InvalidParam(e@),
            ParseError::MissingName => ParseErrorV::MissingName,
            ParseError::MissingType => ParseErrorV::MissingType,
            ParseError::NotImplemented => ParseErrorV::NotImplemented,
            ParseError::UnknownSeparator => ParseErrorV::UnknownSeparator,
        }
    }
}

} // verus!
