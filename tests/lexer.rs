use rink::{StreamError, Token, TokenIterator, render, tokens};

fn lex(text: &str) -> Vec<Token> {
    let mut iter = TokenIterator::new(text);
    tokens(&mut iter).unwrap()
}

fn ident(s: &str) -> Token {
    Token::Ident(s.to_string())
}

fn number(i: &str, f: Option<&str>, e: Option<&str>) -> Token {
    Token::Number(i.to_string(), f.map(|f| f.to_string()), e.map(|e| e.to_string()))
}

fn error(m: &str) -> Token {
    Token::Error(m.to_string())
}

#[test]
fn number_with_fraction_and_exponent() {
    assert_eq!(lex("12.5e-3"), vec![number("12", Some("5"), Some("-3"))]);
}

#[test]
fn identifiers_around_operator() {
    assert_eq!(lex("kg*m"), vec![ident("kg"), Token::Asterisk, ident("m")]);
}

#[test]
fn unexpected_character_is_error() {
    assert_eq!(lex("@"), vec![error("unexpected character '@'")]);
}

#[test]
fn unexpected_character_advances() {
    let mut iter = TokenIterator::new("@@");
    assert_eq!(iter.next(), Some(error("unexpected character '@'")));
    assert_eq!(iter.next(), Some(error("unexpected character '@'")));
    assert_eq!(iter.next(), Some(Token::Eof));
}

#[test]
fn newline_separates_identifiers() {
    assert_eq!(lex("a\nb"), vec![ident("a"), Token::Newline, ident("b")]);
}

#[test]
fn parenthesised_fraction() {
    assert_eq!(
        lex("(1/2)"),
        vec![
            Token::LPar,
            number("1", None, None),
            Token::Slash,
            number("2", None, None),
            Token::RPar,
        ]
    );
}

#[test]
fn render_then_lex_round_trip() {
    let original = lex("kg*m^2 / (s -1.5E+3)\n  foo_bar 12.5e-3 x2 !|+");
    let text = render(&original);
    assert_eq!(lex(&text), original);
}

#[test]
fn render_format() {
    let toks = vec![
        ident("kg"),
        number("12", Some("5"), Some("-3")),
        Token::LPar,
        Token::RPar,
        Token::Newline,
        error("bad"),
    ];
    assert_eq!(render(&toks), "kg 12.5e-3 ()\n<error: bad>");
}

#[test]
fn render_number_without_optional_parts() {
    assert_eq!(render(&vec![number("7", None, None)]), "7 ");
}

#[test]
fn empty_input() {
    assert_eq!(lex(""), vec![]);
    let mut iter = TokenIterator::new("");
    assert_eq!(iter.next(), Some(Token::Eof));
}

#[test]
fn eof_repeats() {
    let mut iter = TokenIterator::new("a");
    assert_eq!(iter.next(), Some(ident("a")));
    assert_eq!(iter.next(), Some(Token::Eof));
    assert_eq!(iter.next(), Some(Token::Eof));
}

#[test]
fn blanks_are_skipped() {
    assert_eq!(lex(" \t a \t"), vec![ident("a")]);
    assert_eq!(lex("   "), vec![]);
}

#[test]
fn all_operators() {
    assert_eq!(
        lex("()!/|^+-*"),
        vec![
            Token::LPar,
            Token::RPar,
            Token::Bang,
            Token::Slash,
            Token::Pipe,
            Token::Caret,
            Token::Plus,
            Token::Dash,
            Token::Asterisk,
        ]
    );
}

#[test]
fn point_without_digit_is_not_fraction() {
    assert_eq!(
        lex("1.x"),
        vec![number("1", None, None), error("unexpected character '.'"), ident("x")]
    );
}

#[test]
fn leading_point_is_error() {
    assert_eq!(lex(".5"), vec![error("unexpected character '.'"), number("5", None, None)]);
}

#[test]
fn marker_without_digit_is_not_exponent() {
    assert_eq!(lex("1e"), vec![number("1", None, None), ident("e")]);
    assert_eq!(
        lex("1e-x"),
        vec![number("1", None, None), ident("e"), Token::Dash, ident("x")]
    );
}

#[test]
fn exponent_forms() {
    assert_eq!(lex("1E5"), vec![number("1", None, Some("5"))]);
    assert_eq!(lex("1e+5"), vec![number("1", None, Some("+5"))]);
    assert_eq!(lex("2.50"), vec![number("2", Some("50"), None)]);
}

#[test]
fn identifier_keeps_digits_and_underscores() {
    assert_eq!(lex("m2 _x9"), vec![ident("m2"), ident("_x9")]);
}

#[test]
fn digits_then_letters_split() {
    assert_eq!(lex("2m"), vec![number("2", None, None), ident("m")]);
}

#[test]
fn unicode_letters_are_identifiers() {
    assert_eq!(lex("µm Å"), vec![ident("µm"), ident("Å")]);
}

#[test]
fn carriage_return_is_error() {
    assert_eq!(
        lex("a\r\nb"),
        vec![ident("a"), error("unexpected character '\r'"), Token::Newline, ident("b")]
    );
}

#[test]
fn driver_leaves_iterator_at_end() {
    let mut iter = TokenIterator::new("a b");
    let toks: Result<Vec<Token>, StreamError> = tokens(&mut iter);
    assert_eq!(toks, Ok(vec![ident("a"), ident("b")]));
    assert_eq!(iter.next(), Some(Token::Eof));
}

#[test]
fn token_count_at_most_characters() {
    let text = "a+b*(c-1.5e3)\n@#";
    assert!(lex(text).len() <= text.chars().count());
}
