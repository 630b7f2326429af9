//! The token iterator and the driver that drains it.

use vstd::prelude::*;
use vstd::string::StringExecFns;
use crate::cursor::Cursor;
use crate::grammar::{
    digit_run, ident_char, ident_run, ident_start, is_alphabetic, is_blank, is_digit, is_special,
    lemma_digit_run, lemma_ident_run, lemma_scan_progress, operator_of, scan, scan_exponent,
    scan_fraction, scan_number, skip_blanks, tokenize, unexpected_message,
};
use crate::token::{SpecToken, Token, opt_view, view_tokens};

verus! {

fn is_blank_char(c: char) -> (r: bool)
    ensures
        r == is_blank(c),
{
    c == ' ' || c == '\t'
}

fn is_digit_char(c: char) -> (r: bool)
    ensures
        r == is_digit(c),
{
    '0' <= c && c <= '9'
}

fn operator_token(c: char) -> (r: Option<Token>)
    ensures
        r is Some == operator_of(c) is Some,
        r is Some ==> r->0@ == operator_of(c)->0,
{
    match c {
        '(' => Some(Token::LPar),
        ')' => Some(Token::RPar),
        '!' => Some(Token::Bang),
        '/' => Some(Token::Slash),
        '|' => Some(Token::Pipe),
        '^' => Some(Token::Caret),
        '+' => Some(Token::Plus),
        '-' => Some(Token::Dash),
        '*' => Some(Token::Asterisk),
        _ => None,
    }
}

fn is_special_char(c: char) -> (r: bool)
    ensures
        r == is_special(c),
{
    is_blank_char(c) || c == '\n' || operator_token(c).is_some()
}

fn is_ident_start(c: char) -> (r: bool)
    ensures
        r == ident_start(c),
{
    !is_special_char(c) && !is_digit_char(c) && (c == '_' || is_alphabetic(c))
}

fn is_ident_char(c: char) -> (r: bool)
    ensures
        r == ident_char(c),
{
    !is_special_char(c) && (is_digit_char(c) || c == '_' || is_alphabetic(c))
}

fn is_digit_opt(c: Option<char>) -> (r: bool)
    ensures
        r == (c is Some && is_digit(c->0)),
{
    match c {
        Some(c) => is_digit_char(c),
        None => false,
    }
}

/// The message of the error token for an unexpected character.
fn unexpected(piece: &str) -> (r: String)
    requires
        piece@.len() == 1,
    ensures
        r@ == unexpected_message(piece@[0]),
{
    let mut m = String::from_str("unexpected character '");
    m.append(piece);
    m.append("'");
    proof {
        reveal_strlit("unexpected character '");
        reveal_strlit("'");
        assert(piece@ =~= seq![piece@[0]]);
        assert(m@ =~= unexpected_message(piece@[0]));
    }
    m
}

/// Produces the tokens of a borrowed text, one per request, left to right.
pub struct TokenIterator<'a> {
    cursor: Cursor<'a>,
}

impl<'a> View for TokenIterator<'a> {
    type V = Seq<char>;

    /// The text not scanned yet.
    closed spec fn view(&self) -> Seq<char> {
        self.cursor@
    }
}

impl<'a> TokenIterator<'a> {
    pub fn new(text: &'a str) -> (r: TokenIterator<'a>)
        ensures
            r@ == text@,
    {
        TokenIterator { cursor: Cursor::new(text) }
    }

    fn at_blank(&self) -> (r: bool)
        ensures
            r == (self@.len() > 0 && is_blank(self@[0])),
    {
        match self.cursor.peek() {
            Some(c) => is_blank_char(c),
            None => false,
        }
    }

    fn at_digit(&self) -> (r: bool)
        ensures
            r == (self@.len() > 0 && is_digit(self@[0])),
    {
        match self.cursor.peek() {
            Some(c) => is_digit_char(c),
            None => false,
        }
    }

    fn at_ident_char(&self) -> (r: bool)
        ensures
            r == (self@.len() > 0 && ident_char(self@[0])),
    {
        match self.cursor.peek() {
            Some(c) => is_ident_char(c),
            None => false,
        }
    }

    fn skip_blanks(&mut self)
        ensures
            final(self)@ == skip_blanks(old(self)@),
    {
        while self.at_blank()
            invariant
                skip_blanks(self@) == skip_blanks(old(self)@),
            decreases self@.len(),
        {
            self.cursor.advance();
        }
    }

    /// Moves the next character from the text to the end of `out`.
    fn shift(&mut self, out: &mut String)
        requires
            old(self)@.len() > 0,
        ensures
            final(out)@ == old(out)@.push(old(self)@[0]),
            final(self)@ == old(self)@.drop_first(),
    {
        let piece = self.cursor.next_str();
        out.append(piece);
        self.cursor.advance();
    }

    /// Moves the longest run of digits from the text to the end of `out`.
    fn take_digits(&mut self, out: &mut String)
        ensures
            final(out)@ == old(out)@ + old(self)@.take(digit_run(old(self)@) as int),
            final(self)@ == old(self)@.skip(digit_run(old(self)@) as int),
    {
        let ghost s0 = self@;
        let ghost o0 = out@;
        let ghost mut k: int = 0;
        proof {
            lemma_digit_run(s0);
        }
        while self.at_digit()
            invariant
                0 <= k <= s0.len(),
                self@ == s0.skip(k),
                out@ == o0 + s0.take(k),
                digit_run(s0) == k + digit_run(self@),
            decreases self@.len(),
        {
            proof {
                assert(s0.take(k + 1) =~= s0.take(k).push(self@[0]));
                assert(s0.skip(k + 1) =~= self@.drop_first());
            }
            self.shift(out);
            proof {
                k = k + 1;
            }
        }
    }

    /// Moves the longest run of identifier characters from the text to the end of `out`.
    fn take_ident(&mut self, out: &mut String)
        ensures
            final(out)@ == old(out)@ + old(self)@.take(ident_run(old(self)@) as int),
            final(self)@ == old(self)@.skip(ident_run(old(self)@) as int),
    {
        let ghost s0 = self@;
        let ghost o0 = out@;
        let ghost mut k: int = 0;
        proof {
            lemma_ident_run(s0);
        }
        while self.at_ident_char()
            invariant
                0 <= k <= s0.len(),
                self@ == s0.skip(k),
                out@ == o0 + s0.take(k),
                ident_run(s0) == k + ident_run(self@),
            decreases self@.len(),
        {
            proof {
                assert(s0.take(k + 1) =~= s0.take(k).push(self@[0]));
                assert(s0.skip(k + 1) =~= self@.drop_first());
            }
            self.shift(out);
            proof {
                k = k + 1;
            }
        }
    }

    /// Scans the fractional part, if the text starts with one.
    fn fraction(&mut self) -> (r: Option<String>)
        ensures
            opt_view(r) == scan_fraction(old(self)@).0,
            final(self)@ == scan_fraction(old(self)@).1,
    {
        let point = match self.cursor.peek() {
            Some(c) => c == '.',
            None => false,
        };
        if point && is_digit_opt(self.cursor.peek_second()) {
            let ghost s0 = self@;
            self.cursor.advance();
            let mut f = String::new();
            self.take_digits(&mut f);
            proof {
                lemma_digit_run(s0.drop_first());
                assert(f@ =~= s0.subrange(1, 1 + digit_run(s0.drop_first()) as int));
                assert(self@ =~= s0.skip(1 + digit_run(s0.drop_first()) as int));
            }
            Some(f)
        } else {
            None
        }
    }

    /// Scans the exponent, if the text starts with one.
    fn exponent(&mut self) -> (r: Option<String>)
        ensures
            opt_view(r) == scan_exponent(old(self)@).0,
            final(self)@ == scan_exponent(old(self)@).1,
    {
        let marker = match self.cursor.peek() {
            Some(c) => c == 'e' || c == 'E',
            None => false,
        };
        if !marker {
            return None;
        }
        let signed = match self.cursor.peek_second() {
            Some(c) => c == '+' || c == '-',
            None => false,
        };
        let digit_follows = if signed {
            is_digit_opt(self.cursor.peek_third())
        } else {
            is_digit_opt(self.cursor.peek_second())
        };
        if !digit_follows {
            return None;
        }
        let ghost s0 = self@;
        let ghost d: int = if signed { 2 } else { 1 };
        self.cursor.advance();
        let mut e = String::new();
        if signed {
            self.shift(&mut e);
        }
        assert(self@ =~= s0.skip(d));
        assert(e@ =~= s0.subrange(1, d));
        self.take_digits(&mut e);
        proof {
            lemma_digit_run(s0.skip(d));
            assert(e@ =~= s0.subrange(1, d + digit_run(s0.skip(d))));
            assert(self@ =~= s0.skip(d + digit_run(s0.skip(d))));
        }
        Some(e)
    }

    /// Scans a number literal; the text starts with a digit.
    fn number(&mut self) -> (r: Token)
        requires
            old(self)@.len() > 0,
            is_digit(old(self)@[0]),
        ensures
            (r@, final(self)@) == scan_number(old(self)@),
    {
        let ghost s0 = self@;
        let mut integer = String::new();
        self.take_digits(&mut integer);
        assert(integer@ =~= s0.take(digit_run(s0) as int));
        let fraction = self.fraction();
        let exponent = self.exponent();
        Token::Number(integer, fraction, exponent)
    }

    fn ident(&mut self) -> (r: Token)
        ensures
            r@ == SpecToken::Ident(old(self)@.take(ident_run(old(self)@) as int)),
            final(self)@ == old(self)@.skip(ident_run(old(self)@) as int),
    {
        let mut name = String::new();
        self.take_ident(&mut name);
        assert(name@ =~= old(self)@.take(ident_run(old(self)@) as int));
        Token::Ident(name)
    }

    /// The next token: blanks are skipped, then one token is read. At the end
    /// of the text it is `Eof`, again on every later request.
    pub fn next(&mut self) -> (r: Option<Token>)
        ensures
            r is Some,
            r->0@ == scan(old(self)@).0,
            final(self)@ == scan(old(self)@).1,
    {
        self.skip_blanks();
        let c = match self.cursor.peek() {
            Some(c) => c,
            None => return Some(Token::Eof),
        };
        if c == '\n' {
            self.cursor.advance();
            return Some(Token::Newline);
        }
        if is_digit_char(c) {
            return Some(self.number());
        }
        match operator_token(c) {
            Some(t) => {
                self.cursor.advance();
                return Some(t);
            },
            None => {},
        }
        if is_ident_start(c) {
            return Some(self.ident());
        }
        let m = unexpected(self.cursor.next_str());
        self.cursor.advance();
        Some(Token::Error(m))
    }
}

/// The protocol error of a token stream that ended without its end marker.
#[derive(Clone, Copy, Debug, PartialEq, Eq)]
pub enum StreamError {
    MissingEof,
}

/// Drains `iter` into the sequence of its tokens up to the end marker, which
/// is left out.
pub fn tokens(iter: &mut TokenIterator) -> (r: Result<Vec<Token>, StreamError>)
    ensures
        r is Ok,
        view_tokens(r->Ok_0@) == tokenize(old(iter)@),
        final(iter)@.len() == 0,
{
    let mut out: Vec<Token> = Vec::new();
    loop
        invariant
            view_tokens(out@) + tokenize(iter@) == tokenize(old(iter)@),
        decreases iter@.len(),
    {
        let ghost before = iter@;
        proof {
            lemma_scan_progress(before);
        }
        match iter.next() {
            Some(Token::Eof) => {
                assert(view_tokens(out@) =~= tokenize(old(iter)@));
                return Ok(out);
            },
            Some(t) => {
                let ghost prev = out@;
                let ghost tv = t@;
                out.push(t);
                assert(view_tokens(out@) =~= view_tokens(prev).push(tv));
                assert(view_tokens(out@) + tokenize(iter@) =~= view_tokens(prev) + tokenize(before));
            },
            None => {
                return Err(StreamError::MissingEof);
            },
        }
    }
}

} // verus!
