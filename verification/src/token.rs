//! Token classifier: assigns one coarse category to each character, used by
//! the lexer to find word-motion boundaries.

use vstd::prelude::*;

use crate::chars::{alpha_of, char_utf8_len, digit_of, white_of};

verus! {

/// Coarse category of a single character.
#[derive(Debug, Clone, Copy, PartialEq, Eq, Structural)]
pub enum TokenKind {
    Punctuation,
    Number,
    Word,
    NewLine,
    Whitespace,
    Emoji,
    Other,
}

/// A classified run of characters: its kind and the inclusive range of
/// character indices it covers in the source.
#[derive(Debug, Clone, Copy, PartialEq, Eq, Structural)]
pub struct Token {
    pub kind: TokenKind,
    pub from: usize,
    pub to: usize,
}

impl Token {
    pub fn new(kind: TokenKind, pos: (usize, usize)) -> (t: Token)
        ensures
            t.kind == kind,
            t.from == pos.0,
            t.to == pos.1,
    {
        Token { kind, from: pos.0, to: pos.1 }
    }

    pub fn kind(&self) -> (k: TokenKind)
        ensures
            k == self.kind,
    {
        self.kind
    }

    pub fn position(&self) -> (p: (usize, usize))
        ensures
            p.0 == self.from,
            p.1 == self.to,
    {
        (self.from, self.to)
    }

}

/// The classification rule: newline is its own category, other whitespace is
/// `Whitespace`, alphabetic characters are `Word`, ASCII digits `Number`,
/// characters encoded in four bytes `Emoji`, everything else `Other`.
pub open spec fn kind_of(c: char) -> TokenKind {
    if char_utf8_len(c) == 1 || char_utf8_len(c) == 2 {
        if white_of(c) {
            if c == '\n' {
                TokenKind::NewLine
            } else {
                TokenKind::Whitespace
            }
        } else if alpha_of(c) {
            TokenKind::Word
        } else if digit_of(c) {
            TokenKind::Number
        } else {
            TokenKind::Other
        }
    } else if char_utf8_len(c) == 4 {
        TokenKind::Emoji
    } else {
        TokenKind::Other
    }
}

/// Classify one character.
pub fn get_kind(c: char) -> (k: TokenKind)
    ensures
        k == kind_of(c),
{
    let w = crate::chars::utf8_len(c);
    if w == 1 || w == 2 {
        if c.is_whitespace() {
            if c == '\n' {
                TokenKind::NewLine
            } else {
                TokenKind::Whitespace
            }
        } else if c.is_alphabetic() {
            TokenKind::Word
        } else if crate::chars::is_digit(c) {
            TokenKind::Number
        } else {
            TokenKind::Other
        }
    } else if w == 4 {
        TokenKind::Emoji
    } else {
        TokenKind::Other
    }
}

} // verus!
