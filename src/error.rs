use vstd::prelude::*;
use crate::lexer::{token_text, Token};
use crate::text::cat;
use crate::typing::type_text;
use crate::typing::AuroraType;

verus! {

/// Everything that can go wrong while lexing, parsing or lowering.
#[derive(Clone, Debug, PartialEq)]
pub enum Error {
    /// An integer literal that does not fit in 64 signed bits.
    ParseInt,
    /// A number literal with neither integral nor fractional digits.
    ParseFloat,
    UnknownChar(char),
    Undefined(String),
    Unexpected(String),
    UnexpectedToken(Token, Token),
    WrongArgumentCount,
    VariableRedef,
    FunctionRedef,
    FunctionRedefWithDifferentParams,
    MismatchedTypes(AuroraType, AuroraType),
}

/// The message of an error.
pub open spec fn error_text(e: Error) -> Seq<char> {
    match e {
        Error::ParseInt => "number too large to fit in target type"@,
        Error::ParseFloat => "invalid float literal"@,
        Error::UnknownChar(c) => "unknown char `"@ + seq![c] + "`"@,
        Error::Undefined(msg) => "undefined "@ + msg@,
        Error::Unexpected(msg) => "unexpected "@ + msg@,
        Error::UnexpectedToken(expected, got) => "unexpected token, was expecting '"@ + token_text(
            expected@,
        ) + "' but got '"@ + token_text(got@) + "'"@,
        Error::WrongArgumentCount => "wrong argument count"@,
        Error::VariableRedef => "redefinition of a variable"@,
        Error::FunctionRedef => "redefinition of function"@,
        Error::FunctionRedefWithDifferentParams =>
            "redefinition of function with different number of parameters"@,
        Error::MismatchedTypes(expected, got) => "mismatched type, was expecting '"@ + type_text(
            expected,
        ) + "' but got '"@ + type_text(got) + "'"@,
    }
}

impl Error {
    /// The message that describes this error.
    pub fn message(&self) -> (r: String)
        ensures
            r@ == error_text(*self),
    {
        match self {
            Error::ParseInt => "number too large to fit in target type".to_owned(),
            Error::ParseFloat => "invalid float literal".to_owned(),
            Error::UnknownChar(c) => {
                let mut r = "unknown char `".to_owned();
                r.push(*c);
                cat(r, "`")
            },
            Error::Undefined(msg) => cat("undefined ".to_owned(), msg.as_str()),
            Error::Unexpected(msg) => cat("unexpected ".to_owned(), msg.as_str()),
            Error::UnexpectedToken(expected, got) => {
                let r = cat("unexpected token, was expecting '".to_owned(), expected.text().as_str());
                let r = cat(r, "' but got '");
                let r = cat(r, got.text().as_str());
                cat(r, "'")
            },
            Error::WrongArgumentCount => "wrong argument count".to_owned(),
            Error::VariableRedef => "redefinition of a variable".to_owned(),
            Error::FunctionRedef => "redefinition of function".to_owned(),
            Error::FunctionRedefWithDifferentParams =>
                "redefinition of function with different number of parameters".to_owned(),
            Error::MismatchedTypes(expected, got) => {
                let r = cat("mismatched type, was expecting '".to_owned(), expected.name().as_str());
                let r = cat(r, "' but got '");
                let r = cat(r, got.name().as_str());
                cat(r, "'")
            },
        }
    }
}

} // verus!
