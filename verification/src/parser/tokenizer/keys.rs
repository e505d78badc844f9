use vstd::prelude::*;

use crate::text::bytes_is;

verus! {

/// The keywords and punctuation of the language.
#[derive(PartialEq, Eq, Structural, Clone, Copy, Debug)]
pub enum Key {
    ParenOpen,
    ParenClose,
    ListOpen,
    ListClose,
    RecordOpen,
    RecordClose,
    Comma,
    Dot,
    Pipe,
    Arrow,
    Lambda,
    ClosureMarker,
    If,
    Then,
    Elif,
    Else,
    First,
    And,
    Where,
    PrimitiveUnimplemented,
}

/// The words that open a top-level declaration.
#[derive(PartialEq, Eq, Structural, Clone, Copy, Debug)]
pub enum Header {
    Function,
    Operator,
    Type,
    Use,
}

/// The spelling of each keyword, as UTF-8 bytes.
pub open spec fn key_spelling(k: Key) -> Seq<u8> {
    match k {
        Key::ParenOpen => seq![40u8],
        Key::ParenClose => seq![41u8],
        Key::ListOpen => seq![91u8],
        Key::ListClose => seq![93u8],
        Key::RecordOpen => seq![123u8],
        Key::RecordClose => seq![125u8],
        Key::Comma => seq![44u8],
        Key::Dot => seq![46u8],
        Key::Pipe => seq![60u8, 60u8],
        Key::Arrow => seq![45u8, 62u8],
        Key::Lambda => seq![92u8],
        Key::ClosureMarker => seq![35u8],
        Key::If => seq![105u8, 102u8],
        Key::Then => seq![116u8, 104u8, 101u8, 110u8],
        Key::Elif => seq![101u8, 108u8, 105u8, 102u8],
        Key::Else => seq![101u8, 108u8, 115u8, 101u8],
        Key::First => seq![102u8, 105u8, 114u8, 115u8, 116u8],
        Key::And => seq![97u8, 110u8, 100u8],
        Key::Where => seq![119u8, 104u8, 101u8, 114u8, 101u8],
        Key::PrimitiveUnimplemented => seq![63u8, 63u8, 63u8],
    }
}

/// The spelling of each header word, as UTF-8 bytes.
pub open spec fn header_spelling(h: Header) -> Seq<u8> {
    match h {
        Header::Function => seq![102u8, 110u8],
        Header::Operator => seq![111u8, 112u8, 101u8, 114u8, 97u8, 116u8, 111u8, 114u8],
        Header::Type => seq![116u8, 121u8, 112u8, 101u8],
        Header::Use => seq![117u8, 115u8, 101u8],
    }
}

/// The keyword spelled by `b`, if any.
pub open spec fn spec_key(b: Seq<u8>) -> Option<Key> {
    if b == key_spelling(Key::ParenOpen) {
        Some(Key::ParenOpen)
    } else if b == key_spelling(Key::ParenClose) {
        Some(Key::ParenClose)
    } else if b == key_spelling(Key::ListOpen) {
        Some(Key::ListOpen)
    } else if b == key_spelling(Key::ListClose) {
        Some(Key::ListClose)
    } else if b == key_spelling(Key::RecordOpen) {
        Some(Key::RecordOpen)
    } else if b == key_spelling(Key::RecordClose) {
        Some(Key::RecordClose)
    } else if b == key_spelling(Key::Comma) {
        Some(Key::Comma)
    } else if b == key_spelling(Key::Dot) {
        Some(Key::Dot)
    } else if b == key_spelling(Key::Pipe) {
        Some(Key::Pipe)
    } else if b == key_spelling(Key::Arrow) {
        Some(Key::Arrow)
    } else if b == key_spelling(Key::Lambda) {
        Some(Key::Lambda)
    } else if b == key_spelling(Key::ClosureMarker) {
        Some(Key::ClosureMarker)
    } else if b == key_spelling(Key::If) {
        Some(Key::If)
    } else if b == key_spelling(Key::Then) {
        Some(Key::Then)
    } else if b == key_spelling(Key::Elif) {
        Some(Key::Elif)
    } else if b == key_spelling(Key::Else) {
        Some(Key::Else)
    } else if b == key_spelling(Key::First) {
        Some(Key::First)
    } else if b == key_spelling(Key::And) {
        Some(Key::And)
    } else if b == key_spelling(Key::Where) {
        Some(Key::Where)
    } else if b == key_spelling(Key::PrimitiveUnimplemented) {
        Some(Key::PrimitiveUnimplemented)
    } else {
        None
    }
}

/// The header word spelled by `b`, if any.
pub open spec fn spec_header(b: Seq<u8>) -> Option<Header> {
    if b == header_spelling(Header::Function) {
        Some(Header::Function)
    } else if b == header_spelling(Header::Operator) {
        Some(Header::Operator)
    } else if b == header_spelling(Header::Type) {
        Some(Header::Type)
    } else if b == header_spelling(Header::Use) {
        Some(Header::Use)
    } else {
        None
    }
}

fn key_lit(k: Key) -> (r: &'static [u8])
    ensures
        r@ == key_spelling(k),
{
    match k {
        Key::ParenOpen => &[40u8],
        Key::ParenClose => &[41u8],
        Key::ListOpen => &[91u8],
        Key::ListClose => &[93u8],
        Key::RecordOpen => &[123u8],
        Key::RecordClose => &[125u8],
        Key::Comma => &[44u8],
        Key::Dot => &[46u8],
        Key::Pipe => &[60u8, 60u8],
        Key::Arrow => &[45u8, 62u8],
        Key::Lambda => &[92u8],
        Key::ClosureMarker => &[35u8],
        Key::If => &[105u8, 102u8],
        Key::Then => &[116u8, 104u8, 101u8, 110u8],
        Key::Elif => &[101u8, 108u8, 105u8, 102u8],
        Key::Else => &[101u8, 108u8, 115u8, 101u8],
        Key::First => &[102u8, 105u8, 114u8, 115u8, 116u8],
        Key::And => &[97u8, 110u8, 100u8],
        Key::Where => &[119u8, 104u8, 101u8, 114u8, 101u8],
        Key::PrimitiveUnimplemented => &[63u8, 63u8, 63u8],
    }
}

fn header_lit(k: Header) -> (r: &'static [u8])
    ensures
        r@ == header_spelling(k),
{
    match k {
        Header::Function => &[102u8, 110u8],
        Header::Operator => &[111u8, 112u8, 101u8, 114u8, 97u8, 116u8, 111u8, 114u8],
        Header::Type => &[116u8, 121u8, 112u8, 101u8],
        Header::Use => &[117u8, 115u8, 101u8],
    }
}

impl Key {
    /// Reads a keyword from its spelling.
    pub fn from_bytes(bytes: &[u8]) -> (r: Option<Key>)
        ensures
            r == spec_key(bytes@),
    {
        if bytes_is(bytes, key_lit(Key::ParenOpen)) {
            Some(Key::ParenOpen)
        } else if bytes_is(bytes, key_lit(Key::ParenClose)) {
            Some(Key::ParenClose)
        } else if bytes_is(bytes, key_lit(Key::ListOpen)) {
            Some(Key::ListOpen)
        } else if bytes_is(bytes, key_lit(Key::ListClose)) {
            Some(Key::ListClose)
        } else if bytes_is(bytes, key_lit(Key::RecordOpen)) {
            Some(Key::RecordOpen)
        } else if bytes_is(bytes, key_lit(Key::RecordClose)) {
            Some(Key::RecordClose)
        } else if bytes_is(bytes, key_lit(Key::Comma)) {
            Some(Key::Comma)
        } else if bytes_is(bytes, key_lit(Key::Dot)) {
            Some(Key::Dot)
        } else if bytes_is(bytes, key_lit(Key::Pipe)) {
            Some(Key::Pipe)
        } else if bytes_is(bytes, key_lit(Key::Arrow)) {
            Some(Key::Arrow)
        } else if bytes_is(bytes, key_lit(Key::Lambda)) {
            Some(Key::Lambda)
        } else if bytes_is(bytes, key_lit(Key::ClosureMarker)) {
            Some(Key::ClosureMarker)
        } else if bytes_is(bytes, key_lit(Key::If)) {
            Some(Key::If)
        } else if bytes_is(bytes, key_lit(Key::Then)) {
            Some(Key::Then)
        } else if bytes_is(bytes, key_lit(Key::Elif)) {
            Some(Key::Elif)
        } else if bytes_is(bytes, key_lit(Key::Else)) {
            Some(Key::Else)
        } else if bytes_is(bytes, key_lit(Key::First)) {
            Some(Key::First)
        } else if bytes_is(bytes, key_lit(Key::And)) {
            Some(Key::And)
        } else if bytes_is(bytes, key_lit(Key::Where)) {
            Some(Key::Where)
        } else if bytes_is(bytes, key_lit(Key::PrimitiveUnimplemented)) {
            Some(Key::PrimitiveUnimplemented)
        } else {
            None
        }
    }
}

impl Header {
    /// Reads a header word from its spelling.
    pub fn from_bytes(bytes: &[u8]) -> (r: Option<Header>)
        ensures
            r == spec_header(bytes@),
    {
        if bytes_is(bytes, header_lit(Header::Function)) {
            Some(Header::Function)
        } else if bytes_is(bytes, header_lit(Header::Operator)) {
            Some(Header::Operator)
        } else if bytes_is(bytes, header_lit(Header::Type)) {
            Some(Header::Type)
        } else if bytes_is(bytes, header_lit(Header::Use)) {
            Some(Header::Use)
        } else {
            None
        }
    }
}

} // verus!
