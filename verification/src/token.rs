use vstd::prelude::*;
use vstd::string::StringExecFns;

verus! {

/// The closed set of token classifications the scanner can produce.
///
/// Structural punctuation, single- and two-character operators, the three
/// literal forms, the seven reserved words, and the two sentinels
/// (`Illegal` for an unrecognized character, `Eof` for end of input).
#[derive(Debug, PartialEq, Eq, Clone, Copy)]
pub enum TokenKind {
    Illegal,
    Identifier,
    Int,
    Str,
    Assign,
    Eq,
    NotEq,
    Plus,
    Minus,
    Bang,
    Asterisk,
    Slash,
    LessThan,
    GreaterThan,
    Comma,
    Semicolon,
    LeftParen,
    RightParen,
    LeftBrace,
    RightBrace,
    If,
    Else,
    True,
    False,
    Return,
    Fn,
    Let,
    Eof,
}

/// One classified token: its kind and the exact text that produced it
/// (the synthesized spelling for two-character operators, the empty
/// string for end of input).
#[derive(Debug, PartialEq)]
pub struct Token {
    pub kind: TokenKind,
    pub literal: String,
}

/// The keyword table as a pure mathematical function: the seven reserved
/// spellings map to their reserved kinds, every other spelling to
/// `Identifier`.
pub open spec fn lookup_spec(id: Seq<char>) -> TokenKind {
    if id == "fn"@ {
        TokenKind::Fn
    } else if id == "let"@ {
        TokenKind::Let
    } else if id == "if"@ {
        TokenKind::If
    } else if id == "else"@ {
        TokenKind::Else
    } else if id == "true"@ {
        TokenKind::True
    } else if id == "false"@ {
        TokenKind::False
    } else if id == "return"@ {
        TokenKind::Return
    } else {
        TokenKind::Identifier
    }
}

/// Resolves an identifier spelling against the keyword table.
pub fn lookup_identifier(identifier: &String) -> (kind: TokenKind)
    ensures
        kind == lookup_spec(identifier@),
{
    if identifier.eq(&String::from_str("fn")) {
        TokenKind::Fn
    } else if identifier.eq(&String::from_str("let")) {
        TokenKind::Let
    } else if identifier.eq(&String::from_str("if")) {
        TokenKind::If
    } else if identifier.eq(&String::from_str("else")) {
        TokenKind::Else
    } else if identifier.eq(&String::from_str("true")) {
        TokenKind::True
    } else if identifier.eq(&String::from_str("false")) {
        TokenKind::False
    } else if identifier.eq(&String::from_str("return")) {
        TokenKind::Return
    } else {
        TokenKind::Identifier
    }
}

} // verus!
