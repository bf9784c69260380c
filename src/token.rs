//! The token record produced by the lexer.
use crate::text::{str_eq, string_of};
use vstd::prelude::*;

verus! {

#[derive(Debug, PartialEq, Eq, Structural, Copy, Clone)]
pub enum TokenKind {
    Ident,
    /// `-`, `*` or `&`: unary or binary depending on where it stands.
    SomeOperator,
    UnaryOperator,
    BinaryOperator,
    Parens,
    Braces,
    Brackets,
    Comma,
    Colon,
    Semicolon,
    Keyword,
    Comment,
    String,
    Char,
    Number,
    Bool,
    ReturnArrow,
    Whitespace,
}

#[derive(Debug)]
pub struct Token {
    pub kind: TokenKind,
    pub literal: String,
    pub line: u32,
    pub col: u32,
}

impl PartialEq for Token {
    fn eq(&self, o: &Token) -> (r: bool) {
        self.kind == o.kind && str_eq(self.literal.as_str(), o.literal.as_str()) && self.line
            == o.line && self.col == o.col
    }
}

impl vstd::std_specs::cmp::PartialEqSpecImpl for Token {
    open spec fn obeys_eq_spec() -> bool {
        true
    }

    open spec fn eq_spec(&self, o: &Token) -> bool {
        self.kind == o.kind && self.literal@ == o.literal@ && self.line == o.line && self.col
            == o.col
    }
}

impl Token {
    pub fn new(kind: TokenKind, literal: &str, line: u32, col: u32) -> (r: Token)
        ensures
            r.kind == kind,
            r.literal@ == literal@,
            r.line == line,
            r.col == col,
    {
        Token { kind, literal: String::from_str(literal), line, col }
    }

    /// A token built from a sequence of characters.
    pub fn from_chars(kind: TokenKind, literal: &Vec<char>, line: u32, col: u32) -> (r: Token)
        ensures
            r.kind == kind,
            r.literal@ == literal@,
            r.line == line,
            r.col == col,
    {
        Token { kind, literal: string_of(literal), line, col }
    }

    /// Whether the token is of the given kind.
    pub fn is_kind(&self, kind: TokenKind) -> (r: bool)
        ensures
            r == (self.kind == kind),
    {
        self.kind == kind
    }

    /// Whether the token's text is the given literal.
    pub fn is_lit(&self, literal: &str) -> (r: bool)
        ensures
            r == (self.literal@ == literal@),
    {
        str_eq(self.literal.as_str(), literal)
    }

    /// Whether the token has both the given kind and the given text.
    pub fn cmp_token(&self, kind: TokenKind, literal: &str) -> (r: bool)
        ensures
            r == (self.kind == kind && self.literal@ == literal@),
    {
        self.is_lit(literal) && self.is_kind(kind)
    }
}

} // verus!
