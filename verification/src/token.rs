//! Lexical tokens: a closed kind enumeration plus the exact literal text the
//! token was scanned from.

use vstd::prelude::*;

verus! {

/// The closed set of token kinds the lexer can produce and the parser
/// dispatches on.
#[derive(Clone, Copy, Debug, PartialEq, Eq, Structural)]
pub enum TokenKind {
    Illegal,
    Eof,
    Identifier,
    Integer,
    String,
    Assign,
    Plus,
    Minus,
    Asterisk,
    Slash,
    Bang,
    Eq,
    NotEq,
    Lt,
    Gt,
    Let,
    Function,
    If,
    Else,
    Return,
    True,
    False,
    Semicolon,
    Comma,
    Lparen,
    Rparen,
    Lbrace,
    Rbrace,
    Lbracket,
    Rbracket,
}

/// The name of a token kind, as it appears in parser diagnostics.
pub open spec fn spec_kind_name(kind: TokenKind) -> Seq<char> {
    match kind {
        TokenKind::Illegal => "Illegal"@,
        TokenKind::Eof => "Eof"@,
        TokenKind::Identifier => "Identifier"@,
        TokenKind::Integer => "Integer"@,
        TokenKind::String => "String"@,
        TokenKind::Assign => "Assign"@,
        TokenKind::Plus => "Plus"@,
        TokenKind::Minus => "Minus"@,
        TokenKind::Asterisk => "Asterisk"@,
        TokenKind::Slash => "Slash"@,
        TokenKind::Bang => "Bang"@,
        TokenKind::Eq => "Eq"@,
        TokenKind::NotEq => "NotEq"@,
        TokenKind::Lt => "Lt"@,
        TokenKind::Gt => "Gt"@,
        TokenKind::Let => "Let"@,
        TokenKind::Function => "Function"@,
        TokenKind::If => "If"@,
        TokenKind::Else => "Else"@,
        TokenKind::Return => "Return"@,
        TokenKind::True => "True"@,
        TokenKind::False => "False"@,
        TokenKind::Semicolon => "Semicolon"@,
        TokenKind::Comma => "Comma"@,
        TokenKind::Lparen => "Lparen"@,
        TokenKind::Rparen => "Rparen"@,
        TokenKind::Lbrace => "Lbrace"@,
        TokenKind::Rbrace => "Rbrace"@,
        TokenKind::Lbracket => "Lbracket"@,
        TokenKind::Rbracket => "Rbracket"@,
    }
}

impl TokenKind {
    /// The printable name of this kind, used verbatim in diagnostics.
    pub fn literal(&self) -> (r: String)
        ensures
            r@ == spec_kind_name(*self),
    {
        let s: &str = match self {
            TokenKind::Illegal => "Illegal",
            TokenKind::Eof => "Eof",
            TokenKind::Identifier => "Identifier",
            TokenKind::Integer => "Integer",
            TokenKind::String => "String",
            TokenKind::Assign => "Assign",
            TokenKind::Plus => "Plus",
            TokenKind::Minus => "Minus",
            TokenKind::Asterisk => "Asterisk",
            TokenKind::Slash => "Slash",
            TokenKind::Bang => "Bang",
            TokenKind::Eq => "Eq",
            TokenKind::NotEq => "NotEq",
            TokenKind::Lt => "Lt",
            TokenKind::Gt => "Gt",
            TokenKind::Let => "Let",
            TokenKind::Function => "Function",
            TokenKind::If => "If",
            TokenKind::Else => "Else",
            TokenKind::Return => "Return",
            TokenKind::True => "True",
            TokenKind::False => "False",
            TokenKind::Semicolon => "Semicolon",
            TokenKind::Comma => "Comma",
            TokenKind::Lparen => "Lparen",
            TokenKind::Rparen => "Rparen",
            TokenKind::Lbrace => "Lbrace",
            TokenKind::Rbrace => "Rbrace",
            TokenKind::Lbracket => "Lbracket",
            TokenKind::Rbracket => "Rbracket",
        };
        s.to_owned()
    }
}

/// A classified lexical unit: its kind and the exact source text it carries.
#[derive(Clone, Debug)]
pub struct Token {
    pub kind: TokenKind,
    pub literal: String,
}

/// The mathematical model of a token: its kind and its literal as a
/// character sequence.
pub ghost struct TokenV {
    pub kind: TokenKind,
    pub literal: Seq<char>,
}

impl View for Token {
    type V = TokenV;

    open spec fn view(&self) -> TokenV {
        TokenV { kind: self.kind, literal: self.literal@ }
    }
}

impl Token {
    /// The token's kind tag.
    pub fn kind(&self) -> (r: TokenKind)
        ensures
            r == self.kind,
    {
        self.kind
    }

    /// A copy of the token's literal text.
    pub fn literal(&self) -> (r: String)
        ensures
            r@ == self@.literal,
    {
        self.literal.clone()
    }
}

} // verus!
