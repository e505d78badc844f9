use vstd::prelude::*;

use crate::parser::ast::{Entity, EntityV};
use crate::parser::identifier::{Identifier, IdentifierV};
use crate::parser::tokenizer::keys::Key;
use crate::parser::tokenizer::token::{RawToken, RawTokenV};
use crate::text::string_of;

verus! {

/// What the parser was looking for when it met something else.
#[derive(PartialEq, Eq, Structural, Clone, Copy, Debug)]
pub enum Expected {
    LambdaParameter,
    Arrow,
    ParenClose,
    Comma,
    ListClose,
    Elif,
    Else,
    TypeName,
    Identifier,
    Dot,
    FieldName,
    RecordClose,
}

/// How each expected thing is named in messages.
pub open spec fn spec_expected_text(e: Expected) -> Seq<char> {
    match e {
        Expected::LambdaParameter => "lambda parameter"@,
        Expected::Arrow => "->"@,
        Expected::ParenClose => ")"@,
        Expected::Comma => ","@,
        Expected::ListClose => "]"@,
        Expected::Elif => "elif"@,
        Expected::Else => "else"@,
        Expected::TypeName => "type name"@,
        Expected::Identifier => "identifier"@,
        Expected::Dot => "."@,
        Expected::FieldName => "field name"@,
        Expected::RecordClose => "}"@,
    }
}

impl Expected {
    /// The name of what was expected, as messages show it.
    pub fn text(&self) -> (r: String)
        ensures
            r@ == spec_expected_text(*self),
    {
        match self {
            Expected::LambdaParameter => string_of("lambda parameter"),
            Expected::Arrow => string_of("->"),
            Expected::ParenClose => string_of(")"),
            Expected::Comma => string_of(","),
            Expected::ListClose => string_of("]"),
            Expected::Elif => string_of("elif"),
            Expected::Else => string_of("else"),
            Expected::TypeName => string_of("type name"),
            Expected::Identifier => string_of("identifier"),
            Expected::Dot => string_of("."),
            Expected::FieldName => string_of("field name"),
            Expected::RecordClose => string_of("}"),
        }
    }
}

/// Why a piece of source text could not be read.
pub enum ParseFault {
    EmptyParen,
    Unmatched(Key),
    Unexpected(RawToken),
    GotButExpected(RawToken, Vec<Expected>),
    UnexpectedWantedParameter(RawToken),
    InvalidClosure(Entity),
    InvalidClosureT(RawToken),
    IfMissingThen,
    IfWantedThen(RawToken),
    FirstMissingThen,
    FirstWantedThen(RawToken),
    EndedWhileExpecting(Vec<Expected>),
    EmptyListType,
    EmptyIdentifier,
    BridgedFunctionNotFound(Identifier),
    ModuleNotImported(String),
}

/// The model of a [`ParseFault`].
pub enum ParseFaultV {
    EmptyParen,
    Unmatched(Key),
    Unexpected(RawTokenV),
    GotButExpected(RawTokenV, Seq<Expected>),
    UnexpectedWantedParameter(RawTokenV),
    InvalidClosure(EntityV),
    InvalidClosureT(RawTokenV),
    IfMissingThen,
    IfWantedThen(RawTokenV),
    FirstMissingThen,
    FirstWantedThen(RawTokenV),
    EndedWhileExpecting(Seq<Expected>),
    EmptyListType,
    EmptyIdentifier,
    BridgedFunctionNotFound(IdentifierV),
    ModuleNotImported(Seq<char>),
}

impl View for ParseFault {
    type V = ParseFaultV;

    open spec fn view(&self) -> ParseFaultV {
        match self {
            ParseFault::EmptyParen => ParseFaultV::EmptyParen,
            ParseFault::Unmatched(k) => ParseFaultV::Unmatched(*k),
            ParseFault::Unexpected(t) => ParseFaultV::Unexpected(t@),
            ParseFault::GotButExpected(t, e) => ParseFaultV::GotButExpected(t@, e@),
            ParseFault::UnexpectedWantedParameter(t) => ParseFaultV::UnexpectedWantedParameter(t@),
            ParseFault::InvalidClosure(e) => ParseFaultV::InvalidClosure(e@),
            ParseFault::InvalidClosureT(t) => ParseFaultV::InvalidClosureT(t@),
            ParseFault::IfMissingThen => ParseFaultV::IfMissingThen,
            ParseFault::IfWantedThen(t) => ParseFaultV::IfWantedThen(t@),
            ParseFault::FirstMissingThen => ParseFaultV::FirstMissingThen,
            ParseFault::FirstWantedThen(t) => ParseFaultV::FirstWantedThen(t@),
            ParseFault::EndedWhileExpecting(e) => ParseFaultV::EndedWhileExpecting(e@),
            ParseFault::EmptyListType => ParseFaultV::EmptyListType,
            ParseFault::EmptyIdentifier => ParseFaultV::EmptyIdentifier,
            ParseFault::BridgedFunctionNotFound(i) => ParseFaultV::BridgedFunctionNotFound(i@),
            ParseFault::ModuleNotImported(s) => ParseFaultV::ModuleNotImported(s@),
        }
    }
}

/// A [`ParseFault`] found at an index of the source; index 0 stands for "not known".
pub struct ParseError {
    pub fault: ParseFault,
    pub source_index: usize,
}

/// The model of a [`ParseError`].
pub struct ParseErrorV {
    pub fault: ParseFaultV,
    pub source_index: usize,
}

impl View for ParseError {
    type V = ParseErrorV;

    open spec fn view(&self) -> ParseErrorV {
        ParseErrorV { fault: self.fault@, source_index: self.source_index }
    }
}

/// The error for `fault` at `pos`.
pub open spec fn err_at(fault: ParseFaultV, pos: usize) -> ParseErrorV {
    ParseErrorV { fault, source_index: pos }
}

/// `e`, placed at `pos` where its own index is not known.
pub open spec fn spec_fallback(e: ParseErrorV, pos: usize) -> ParseErrorV {
    if e.source_index == 0 {
        ParseErrorV { fault: e.fault, source_index: pos }
    } else {
        e
    }
}

impl ParseFault {
    /// This fault, found at `pos`.
    pub fn into_err(self, pos: usize) -> (r: ParseError)
        ensures
            r.fault == self,
            r.source_index == pos,
    {
        ParseError { fault: self, source_index: pos }
    }
}

impl ParseError {
    /// This error, placed at `pos` where its own index is not known.
    pub fn fallback_index(self, pos: usize) -> (r: ParseError)
        ensures
            r@ == spec_fallback(self@, pos),
    {
        if self.source_index == 0 {
            ParseError { fault: self.fault, source_index: pos }
        } else {
            self
        }
    }
}

/// How a reading of source text ends: with a value, with an error, or in a panic.
pub enum Outcome<T, E> {
    Done(T),
    Fails(E),
    Panics,
}

/// An error keeps the first index it is placed at: placing it again changes nothing.
pub proof fn law_fallback_keeps_first(e: ParseErrorV, first: usize, second: usize)
    requires
        first != 0,
    ensures
        spec_fallback(spec_fallback(e, first), second) == spec_fallback(e, first),
{
}

} // verus!
