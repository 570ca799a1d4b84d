//! Lexical units.

use vstd::prelude::*;

verus! {

/// One lexical unit of a source text. Tokens own their text, so they outlive
/// the buffer they were read from.
#[derive(Debug, Clone)]
pub enum Token {
    /// `$define`
    Define,
    /// `version`
    Version,
    /// `schemes`
    Schemes,
    /// `$state`
    State,
    /// `$consts`
    Consts,
    /// `$include`, with the name of the header it asks for.
    Include(String),
    /// `$procedures`
    Procedures,
    /// `address`
    Address,
    /// `u128`
    U128,
    /// `u8`
    U8,
    /// `bool`
    Bool,
    /// `table`
    Table,
    /// `pub`
    PubFModifier,
    /// `mut`
    MutFModifier,
    /// `return`
    Return,
    /// A numeric literal as decimal text, its exponent written out.
    Number(String),
    /// A word that is no keyword.
    Identifier(String),
    /// A symbol character.
    Operator(String),
    /// A line comment, from its two slashes to the end of the line.
    Comment(String),
    /// A string literal: what stands between the quotes, as it stands.
    String(String),
    /// White space; the scanner skips it and never hands it out.
    Whitespace,
    /// `{`
    LeftBrace,
    /// `}`
    RightBrace,
    /// `[`
    LeftBracket,
    /// `]`
    RightBracket,
    /// `(`
    LeftParen,
    /// `)`
    RightParen,
    /// `,`
    Comma,
    /// `;`
    SemiColon,
    /// `.`
    Period,
    /// The end of the input.
    Eof,
}

/// A token as a mathematical value: the same variants, with texts as
/// sequences of characters.
pub enum TokenView {
    Define,
    Version,
    Schemes,
    State,
    Consts,
    Include(Seq<char>),
    Procedures,
    Address,
    U128,
    U8,
    Bool,
    Table,
    PubFModifier,
    MutFModifier,
    Return,
    Number(Seq<char>),
    Identifier(Seq<char>),
    Operator(Seq<char>),
    Comment(Seq<char>),
    String(Seq<char>),
    Whitespace,
    LeftBrace,
    RightBrace,
    LeftBracket,
    RightBracket,
    LeftParen,
    RightParen,
    Comma,
    SemiColon,
    Period,
    Eof,
}

impl View for Token {
    type V = TokenView;

    open spec fn view(&self) -> TokenView {
        match self {
            Token::Define => TokenView::Define,
            Token::Version => TokenView::Version,
            Token::Schemes => TokenView::Schemes,
            Token::State => TokenView::State,
            Token::Consts => TokenView::Consts,
            Token::Include(name) => TokenView::Include(name@),
            Token::Procedures => TokenView::Procedures,
            Token::Address => TokenView::Address,
            Token::U128 => TokenView::U128,
            Token::U8 => TokenView::U8,
            Token::Bool => TokenView::Bool,
            Token::Table => TokenView::Table,
            Token::PubFModifier => TokenView::PubFModifier,
            Token::MutFModifier => TokenView::MutFModifier,
            Token::Return => TokenView::Return,
            Token::Number(text) => TokenView::Number(text@),
            Token::Identifier(text) => TokenView::Identifier(text@),
            Token::Operator(text) => TokenView::Operator(text@),
            Token::Comment(text) => TokenView::Comment(text@),
            Token::String(text) => TokenView::String(text@),
            Token::Whitespace => TokenView::Whitespace,
            Token::LeftBrace => TokenView::LeftBrace,
            Token::RightBrace => TokenView::RightBrace,
            Token::LeftBracket => TokenView::LeftBracket,
            Token::RightBracket => TokenView::RightBracket,
            Token::LeftParen => TokenView::LeftParen,
            Token::RightParen => TokenView::RightParen,
            Token::Comma => TokenView::Comma,
            Token::SemiColon => TokenView::SemiColon,
            Token::Period => TokenView::Period,
            Token::Eof => TokenView::Eof,
        }
    }
}

/// Whether two strings hold the same text.
fn same_text(a: &String, b: &String) -> (r: bool)
    ensures
        r == (a@ == b@),
{
    *a == *b
}

impl PartialEq for Token {
    /// Two tokens are equal when they are of one kind and carry the same text.
    fn eq(&self, other: &Token) -> (r: bool) {
        match (self, other) {
            (Token::Define, Token::Define) => true,
            (Token::Version, Token::Version) => true,
            (Token::Schemes, Token::Schemes) => true,
            (Token::State, Token::State) => true,
            (Token::Consts, Token::Consts) => true,
            (Token::Include(a), Token::Include(b)) => same_text(a, b),
            (Token::Procedures, Token::Procedures) => true,
            (Token::Address, Token::Address) => true,
            (Token::U128, Token::U128) => true,
            (Token::U8, Token::U8) => true,
            (Token::Bool, Token::Bool) => true,
            (Token::Table, Token::Table) => true,
            (Token::PubFModifier, Token::PubFModifier) => true,
            (Token::MutFModifier, Token::MutFModifier) => true,
            (Token::Return, Token::Return) => true,
            (Token::Number(a), Token::Number(b)) => same_text(a, b),
            (Token::Identifier(a), Token::Identifier(b)) => same_text(a, b),
            (Token::Operator(a), Token::Operator(b)) => same_text(a, b),
            (Token::Comment(a), Token::Comment(b)) => same_text(a, b),
            (Token::String(a), Token::String(b)) => same_text(a, b),
            (Token::Whitespace, Token::Whitespace) => true,
            (Token::LeftBrace, Token::LeftBrace) => true,
            (Token::RightBrace, Token::RightBrace) => true,
            (Token::LeftBracket, Token::LeftBracket) => true,
            (Token::RightBracket, Token::RightBracket) => true,
            (Token::LeftParen, Token::LeftParen) => true,
            (Token::RightParen, Token::RightParen) => true,
            (Token::Comma, Token::Comma) => true,
            (Token::SemiColon, Token::SemiColon) => true,
            (Token::Period, Token::Period) => true,
            (Token::Eof, Token::Eof) => true,
            _ => false,
        }
    }
}

impl vstd::std_specs::cmp::PartialEqSpecImpl for Token {
    open spec fn obeys_eq_spec() -> bool {
        true
    }

    open spec fn eq_spec(&self, other: &Token) -> bool {
        self@ == other@
    }
}

} // verus!
