//! The tokens of unit-definition text, and their mathematical model.

use vstd::prelude::*;

verus! {

/// One classified lexical unit.
#[derive(Clone, Debug, PartialEq, Eq)]
pub enum Token {
    /// End of input.
    Eof,
    /// A line break, which separates statements.
    Newline,
    /// An identifier.
    Ident(String),
    /// A numeric literal as raw digit text: integer part, fractional part
    /// (after a decimal point), exponent (after `e` or `E`, with its sign).
    Number(String, Option<String>, Option<String>),
    LPar,
    RPar,
    Bang,
    Slash,
    Pipe,
    Caret,
    Plus,
    Dash,
    Asterisk,
    /// A lexical error, with a message; scanning goes on after it.
    Error(String),
}

/// The model of a token: texts are sequences of characters.
pub ghost enum SpecToken {
    Eof,
    Newline,
    Ident(Seq<char>),
    Number(Seq<char>, Option<Seq<char>>, Option<Seq<char>>),
    LPar,
    RPar,
    Bang,
    Slash,
    Pipe,
    Caret,
    Plus,
    Dash,
    Asterisk,
    Error(Seq<char>),
}

/// The model of an optional text.
pub open spec fn opt_view(o: Option<String>) -> Option<Seq<char>> {
    match o {
        Some(s) => Some(s@),
        None => None,
    }
}

impl View for Token {
    type V = SpecToken;

    open spec fn view(&self) -> SpecToken {
        match self {
            Token::Eof => SpecToken::Eof,
            Token::Newline => SpecToken::Newline,
            Token::Ident(s) => SpecToken::Ident(s@),
            Token::Number(i, f, e) => SpecToken::Number(i@, opt_view(*f), opt_view(*e)),
            Token::LPar => SpecToken::LPar,
            Token::RPar => SpecToken::RPar,
            Token::Bang => SpecToken::Bang,
            Token::Slash => SpecToken::Slash,
            Token::Pipe => SpecToken::Pipe,
            Token::Caret => SpecToken::Caret,
            Token::Plus => SpecToken::Plus,
            Token::Dash => SpecToken::Dash,
            Token::Asterisk => SpecToken::Asterisk,
            Token::Error(m) => SpecToken::Error(m@),
        }
    }
}

/// The models of a sequence of tokens.
pub open spec fn view_tokens(ts: Seq<Token>) -> Seq<SpecToken> {
    ts.map_values(|t: Token| t@)
}

} // verus!
