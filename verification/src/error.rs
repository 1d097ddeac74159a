use vstd::prelude::*;

use crate::parser::lexer::{SpecToken, Token};

verus! {

/// The ways evaluation, parsing and lexing fail.
#[derive(Debug)]
pub enum Error {
    DivisionByZero,
    Overflow,
    RootsNotImplemented,
    // Parser
    InvalidParens,
    InvalidToken(Token),
    AtomExpected(Token),
    InvalidFunc(String),
    // Lexer
    OverlapElements(Vec<String>),
    InvalidCharacter(usize, char),
    TwoDots(usize),
}

/// An error, with its strings and tokens taken by their views.
pub enum SpecError {
    DivisionByZero,
    Overflow,
    RootsNotImplemented,
    InvalidParens,
    InvalidToken(SpecToken),
    AtomExpected(SpecToken),
    InvalidFunc(Seq<char>),
    OverlapElements(Seq<Seq<char>>),
    InvalidCharacter(usize, char),
    TwoDots(usize),
}

impl View for Error {
    type V = SpecError;

    open spec fn view(&self) -> SpecError {
        match self {
            Error::DivisionByZero => SpecError::DivisionByZero,
            Error::Overflow => SpecError::Overflow,
            Error::RootsNotImplemented => SpecError::RootsNotImplemented,
            Error::InvalidParens => SpecError::InvalidParens,
            Error::InvalidToken(t) => SpecError::InvalidToken(t@),
            Error::AtomExpected(t) => SpecError::AtomExpected(t@),
            Error::InvalidFunc(s) => SpecError::InvalidFunc(s@),
            Error::OverlapElements(v) => SpecError::OverlapElements(v@.map_values(|s: String| s@)),
            Error::InvalidCharacter(i, c) => SpecError::InvalidCharacter(*i, *c),
            Error::TwoDots(i) => SpecError::TwoDots(*i),
        }
    }
}

} // verus!
