//! Tokens, the lexical units of the language.
use vstd::prelude::*;

verus! {

/// One lexical unit of source text.
#[derive(Debug, PartialEq, Eq)]
pub enum Token {
    /// The keyword `let`.
    Let,
    /// The keyword `console`.
    Console,
    /// The keyword `log`.
    Log,
    /// A name that is not a keyword.
    Identifier(String),
    /// A decimal literal.
    Number(i64),
    /// The text between two double quotes.
    String(String),
    /// `+`
    Plus,
    /// `.`
    Dot,
    /// `=`
    Equal,
    /// `;`
    Semicolon,
    /// `(`
    LParen,
    /// `)`
    RParen,
}

/// The mathematical value of a [`Token`]: text is a sequence of characters.
pub enum TokenView {
    Let,
    Console,
    Log,
    Identifier(Seq<char>),
    Number(i64),
    String(Seq<char>),
    Plus,
    Dot,
    Equal,
    Semicolon,
    LParen,
    RParen,
}

impl View for Token {
    type V = TokenView;

    open spec fn view(&self) -> TokenView {
        match self {
            Token::Let => TokenView::Let,
            Token::Console => TokenView::Console,
            Token::Log => TokenView::Log,
            Token::Identifier(name) => TokenView::Identifier(name@),
            Token::Number(n) => TokenView::Number(*n),
            Token::String(text) => TokenView::String(text@),
            Token::Plus => TokenView::Plus,
            Token::Dot => TokenView::Dot,
            Token::Equal => TokenView::Equal,
            Token::Semicolon => TokenView::Semicolon,
            Token::LParen => TokenView::LParen,
            Token::RParen => TokenView::RParen,
        }
    }
}

impl Clone for Token {
    fn clone(&self) -> (copy: Token)
        ensures
            copy@ == self@,
    {
        match self {
            Token::Let => Token::Let,
            Token::Console => Token::Console,
            Token::Log => Token::Log,
            Token::Identifier(name) => Token::Identifier(name.clone()),
            Token::Number(n) => Token::Number(*n),
            Token::String(text) => Token::String(text.clone()),
            Token::Plus => Token::Plus,
            Token::Dot => Token::Dot,
            Token::Equal => Token::Equal,
            Token::Semicolon => Token::Semicolon,
            Token::LParen => Token::LParen,
            Token::RParen => Token::RParen,
        }
    }
}

/// The values of a sequence of tokens, in order.
pub open spec fn token_views(tokens: Seq<Token>) -> Seq<TokenView> {
    Seq::new(tokens.len(), |i: int| tokens[i]@)
}

} // verus!
