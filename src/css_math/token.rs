use vstd::prelude::*;

verus! {

/// One lexical item of a CSS arithmetic expression (the body of a `calc()`).
#[derive(Debug, PartialEq, Clone)]
pub enum Token {
    Number(String),
    Unit(String),
    Variable(String),
    Operator(String),
    LeftParen,
    RightParen,
    /// Whitespace is kept as a token of its own: CSS requires spaces around binary operators,
    /// and the validator checks where they stand.
    Whitespace,
}

/// The mathematical value of a [`Token`]: its kind and its text.
pub enum Lexeme {
    Number(Seq<char>),
    Unit(Seq<char>),
    Variable(Seq<char>),
    Operator(Seq<char>),
    LeftParen,
    RightParen,
    Whitespace,
}

impl View for Token {
    type V = Lexeme;

    open spec fn view(&self) -> Lexeme {
        match self {
            Token::Number(s) => Lexeme::Number(s@),
            Token::Unit(s) => Lexeme::Unit(s@),
            Token::Variable(s) => Lexeme::Variable(s@),
            Token::Operator(s) => Lexeme::Operator(s@),
            Token::LeftParen => Lexeme::LeftParen,
            Token::RightParen => Lexeme::RightParen,
            Token::Whitespace => Lexeme::Whitespace,
        }
    }
}

/// The lexemes of a sequence of tokens.
pub open spec fn lexemes(ts: Seq<Token>) -> Seq<Lexeme> {
    ts.map_values(|t: Token| t@)
}

} // verus!
