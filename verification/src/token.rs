//! Token and error types shared by both tokenizer paths, and the fixed
//! error messages of the token grammar.

use vstd::prelude::*;

verus! {

/// The kind of a token produced by tokenization.
#[derive(Debug, Clone, Copy, PartialEq, Eq, Structural)]
pub enum TokenType {
    String,
    Number,
    True,
    False,
    Null,
    LeftBrace,
    RightBrace,
    LeftBracket,
    RightBracket,
    Colon,
    Comma,
    Identifier,
    EOF,
}

/// Mathematical model of a token: its kind, its payload bytes, and the byte
/// offsets of the region of the input it was read from.
pub ghost struct SpecToken {
    pub token_type: TokenType,
    pub value: Seq<u8>,
    pub start: int,
    pub end: int,
}

/// A token with its kind, payload, and position. The payload is owned, so a
/// token remains valid after the input buffer is gone.
#[derive(Debug, Clone)]
pub struct Token {
    pub token_type: TokenType,
    pub value: Vec<u8>,
    pub start: usize,
    pub end: usize,
}

impl View for Token {
    type V = SpecToken;

    open spec fn view(&self) -> SpecToken {
        SpecToken {
            token_type: self.token_type,
            value: self.value@,
            start: self.start as int,
            end: self.end as int,
        }
    }
}

impl Token {
    pub fn new(token_type: TokenType, value: Vec<u8>, start: usize, end: usize) -> (t: Token)
        ensures
            t@ == (SpecToken {
                token_type,
                value: value@,
                start: start as int,
                end: end as int,
            }),
    {
        Token { token_type, value, start, end }
    }
}

/// Mathematical model of a parse error: a message and the byte offset most
/// relevant to the failure.
pub ghost struct SpecParseError {
    pub message: Seq<u8>,
    pub position: int,
}

/// A parse error with position information. The message is carried as
/// bytes, so that it can embed the offending input byte.
#[derive(Debug, Clone)]
pub struct ParseError {
    pub message: Vec<u8>,
    pub position: usize,
}

impl View for ParseError {
    type V = SpecParseError;

    open spec fn view(&self) -> SpecParseError {
        SpecParseError { message: self.message@, position: self.position as int }
    }
}

impl ParseError {
    pub fn new(message: Vec<u8>, position: usize) -> (e: ParseError)
        ensures
            e@ == (SpecParseError { message: message@, position: position as int }),
    {
        ParseError { message, position }
    }
}

// ---------------------------------------------------------------------------
// The fixed error messages, as byte sequences.
// ---------------------------------------------------------------------------

/// The bytes of `Unterminated string`.
pub open spec fn msg_unterminated_string() -> Seq<u8> {
    seq![
        85u8, 110u8, 116u8, 101u8, 114u8, 109u8, 105u8, 110u8, 97u8, 116u8, 101u8, 100u8, 32u8,
        115u8, 116u8, 114u8, 105u8, 110u8, 103u8,
    ]
}

/// The bytes of `Invalid hex number`.
pub open spec fn msg_invalid_hex_number() -> Seq<u8> {
    seq![
        73u8, 110u8, 118u8, 97u8, 108u8, 105u8, 100u8, 32u8, 104u8, 101u8, 120u8, 32u8, 110u8,
        117u8, 109u8, 98u8, 101u8, 114u8,
    ]
}

/// The bytes of `Unexpected end after +`.
pub open spec fn msg_end_after_plus() -> Seq<u8> {
    seq![
        85u8, 110u8, 101u8, 120u8, 112u8, 101u8, 99u8, 116u8, 101u8, 100u8, 32u8, 101u8, 110u8,
        100u8, 32u8, 97u8, 102u8, 116u8, 101u8, 114u8, 32u8, 43u8,
    ]
}

/// The bytes of `Unexpected character: ` followed by the offending byte:
/// the character is part of the error, not only its position.
pub open spec fn msg_unexpected_character(c: u8) -> Seq<u8> {
    seq![
        85u8, 110u8, 101u8, 120u8, 112u8, 101u8, 99u8, 116u8, 101u8, 100u8, 32u8, 99u8, 104u8,
        97u8, 114u8, 97u8, 99u8, 116u8, 101u8, 114u8, 58u8, 32u8,
    ].push(c)
}

pub(crate) fn unterminated_string_message() -> (r: Vec<u8>)
    ensures
        r@ == msg_unterminated_string(),
{
    let mut v: Vec<u8> = Vec::new();
    v.push(85);
    v.push(110);
    v.push(116);
    v.push(101);
    v.push(114);
    v.push(109);
    v.push(105);
    v.push(110);
    v.push(97);
    v.push(116);
    v.push(101);
    v.push(100);
    v.push(32);
    v.push(115);
    v.push(116);
    v.push(114);
    v.push(105);
    v.push(110);
    v.push(103);
    assert(v@ =~= msg_unterminated_string());
    v
}

pub(crate) fn invalid_hex_number_message() -> (r: Vec<u8>)
    ensures
        r@ == msg_invalid_hex_number(),
{
    let mut v: Vec<u8> = Vec::new();
    v.push(73);
    v.push(110);
    v.push(118);
    v.push(97);
    v.push(108);
    v.push(105);
    v.push(100);
    v.push(32);
    v.push(104);
    v.push(101);
    v.push(120);
    v.push(32);
    v.push(110);
    v.push(117);
    v.push(109);
    v.push(98);
    v.push(101);
    v.push(114);
    assert(v@ =~= msg_invalid_hex_number());
    v
}

pub(crate) fn end_after_plus_message() -> (r: Vec<u8>)
    ensures
        r@ == msg_end_after_plus(),
{
    let mut v: Vec<u8> = Vec::new();
    v.push(85);
    v.push(110);
    v.push(101);
    v.push(120);
    v.push(112);
    v.push(101);
    v.push(99);
    v.push(116);
    v.push(101);
    v.push(100);
    v.push(32);
    v.push(101);
    v.push(110);
    v.push(100);
    v.push(32);
    v.push(97);
    v.push(102);
    v.push(116);
    v.push(101);
    v.push(114);
    v.push(32);
    v.push(43);
    assert(v@ =~= msg_end_after_plus());
    v
}

pub(crate) fn unexpected_character_message(c: u8) -> (r: Vec<u8>)
    ensures
        r@ == msg_unexpected_character(c),
{
    let mut v: Vec<u8> = Vec::new();
    v.push(85);
    v.push(110);
    v.push(101);
    v.push(120);
    v.push(112);
    v.push(101);
    v.push(99);
    v.push(116);
    v.push(101);
    v.push(100);
    v.push(32);
    v.push(99);
    v.push(104);
    v.push(97);
    v.push(114);
    v.push(97);
    v.push(99);
    v.push(116);
    v.push(101);
    v.push(114);
    v.push(58);
    v.push(32);
    v.push(c);
    assert(v@ =~= msg_unexpected_character(c));
    v
}

} // verus!
