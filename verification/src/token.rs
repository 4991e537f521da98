use vstd::prelude::*;
use crate::span::Span;

verus! {

/// The kinds of token the lexer produces. A float literal keeps its source
/// text (without any `f` width suffix); turning it into a machine float is
/// left to the embedding program.
#[derive(Debug, Clone, PartialEq)]
pub enum TokenKind {
    Integer(i64),
    Float(String),
    Str(String),
    Bool(bool),
    Nil,
    Symbol(String),
    Keyword(String),
    LParen,
    RParen,
    LBracket,
    RBracket,
    Colon,
    Arrow,
    Comma,
    Eof,
}

/// Mathematical model of a token kind: strings become character sequences.
pub enum SpecTokenKind {
    Integer(i64),
    Float(Seq<char>),
    Str(Seq<char>),
    Bool(bool),
    Nil,
    Symbol(Seq<char>),
    Keyword(Seq<char>),
    LParen,
    RParen,
    LBracket,
    RBracket,
    Colon,
    Arrow,
    Comma,
    Eof,
}

impl View for TokenKind {
    type V = SpecTokenKind;

    open spec fn view(&self) -> SpecTokenKind {
        match self {
            TokenKind::Integer(v) => SpecTokenKind::Integer(*v),
            TokenKind::Float(t) => SpecTokenKind::Float(t@),
            TokenKind::Str(s) => SpecTokenKind::Str(s@),
            TokenKind::Bool(b) => SpecTokenKind::Bool(*b),
            TokenKind::Nil => SpecTokenKind::Nil,
            TokenKind::Symbol(s) => SpecTokenKind::Symbol(s@),
            TokenKind::Keyword(s) => SpecTokenKind::Keyword(s@),
            TokenKind::LParen => SpecTokenKind::LParen,
            TokenKind::RParen => SpecTokenKind::RParen,
            TokenKind::LBracket => SpecTokenKind::LBracket,
            TokenKind::RBracket => SpecTokenKind::RBracket,
            TokenKind::Colon => SpecTokenKind::Colon,
            TokenKind::Arrow => SpecTokenKind::Arrow,
            TokenKind::Comma => SpecTokenKind::Comma,
            TokenKind::Eof => SpecTokenKind::Eof,
        }
    }
}

#[derive(Debug, Clone, PartialEq)]
pub struct Token {
    pub kind: TokenKind,
    pub span: Span,
}

pub struct SpecToken {
    pub kind: SpecTokenKind,
    pub span: Span,
}

impl View for Token {
    type V = SpecToken;

    open spec fn view(&self) -> SpecToken {
        SpecToken { kind: self.kind@, span: self.span }
    }
}

impl Token {
    pub fn new(kind: TokenKind, span: Span) -> (t: Token)
        ensures
            t.kind == kind,
            t.span == span,
    {
        Token { kind, span }
    }
}

impl TokenKind {
    /// True for the end-of-input marker.
    pub fn is_eof(&self) -> (b: bool)
        ensures
            b == (self@ is Eof),
    {
        match self {
            TokenKind::Eof => true,
            _ => false,
        }
    }
}

} // verus!
