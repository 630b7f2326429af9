//! The lexical grammar, stated over sequences of characters.

use vstd::prelude::*;
use crate::token::SpecToken;

verus! {

/// What `char::is_alphabetic` returns: whether a character has the
/// Unicode `Alphabetic` property.
pub uninterp spec fn alphabetic(c: char) -> bool;

/// Relies on `char::is_alphabetic`, for the letters that begin identifiers.
#[verifier::external_body]
pub(crate) fn is_alphabetic(c: char) -> (r: bool)
    ensures
        r == alphabetic(c),
{
    c.is_alphabetic()
}

/// Insignificant whitespace: space and tab.
pub open spec fn is_blank(c: char) -> bool {
    c == ' ' || c == '\t'
}

pub open spec fn is_digit(c: char) -> bool {
    '0' <= c && c <= '9'
}

/// The operator token that a single character stands for, if any.
pub open spec fn operator_of(c: char) -> Option<SpecToken> {
    if c == '(' {
        Some(SpecToken::LPar)
    } else if c == ')' {
        Some(SpecToken::RPar)
    } else if c == '!' {
        Some(SpecToken::Bang)
    } else if c == '/' {
        Some(SpecToken::Slash)
    } else if c == '|' {
        Some(SpecToken::Pipe)
    } else if c == '^' {
        Some(SpecToken::Caret)
    } else if c == '+' {
        Some(SpecToken::Plus)
    } else if c == '-' {
        Some(SpecToken::Dash)
    } else if c == '*' {
        Some(SpecToken::Asterisk)
    } else {
        None
    }
}

/// Characters with a meaning of their own, which never belong to an identifier.
pub open spec fn is_special(c: char) -> bool {
    is_blank(c) || c == '\n' || operator_of(c) is Some
}

/// A character that may begin an identifier: a letter or `_`.
pub open spec fn ident_start(c: char) -> bool {
    !is_special(c) && !is_digit(c) && (c == '_' || alphabetic(c))
}

/// A character that may continue an identifier: a letter, a digit or `_`.
pub open spec fn ident_char(c: char) -> bool {
    !is_special(c) && (is_digit(c) || c == '_' || alphabetic(c))
}

/// `s` without its leading blanks.
pub open spec fn skip_blanks(s: Seq<char>) -> Seq<char>
    decreases s.len(),
{
    if s.len() > 0 && is_blank(s[0]) {
        skip_blanks(s.drop_first())
    } else {
        s
    }
}

/// The length of the longest prefix of `s` made of digits.
pub open spec fn digit_run(s: Seq<char>) -> nat
    decreases s.len(),
{
    if s.len() > 0 && is_digit(s[0]) {
        1 + digit_run(s.drop_first())
    } else {
        0
    }
}

/// The length of the longest prefix of `s` made of identifier characters.
pub open spec fn ident_run(s: Seq<char>) -> nat
    decreases s.len(),
{
    if s.len() > 0 && ident_char(s[0]) {
        1 + ident_run(s.drop_first())
    } else {
        0
    }
}

/// The fractional part at the start of `s` (a point and at least one digit),
/// and what follows it.
pub open spec fn scan_fraction(s: Seq<char>) -> (Option<Seq<char>>, Seq<char>) {
    if s.len() >= 2 && s[0] == '.' && is_digit(s[1]) {
        let m = digit_run(s.drop_first()) as int;
        (Some(s.subrange(1, 1 + m)), s.skip(1 + m))
    } else {
        (None, s)
    }
}

pub open spec fn is_exponent_marker(c: char) -> bool {
    c == 'e' || c == 'E'
}

pub open spec fn is_sign(c: char) -> bool {
    c == '+' || c == '-'
}

/// The exponent at the start of `s` (a marker, an optional sign and at least
/// one digit), and what follows it. The exponent text keeps the sign.
pub open spec fn scan_exponent(s: Seq<char>) -> (Option<Seq<char>>, Seq<char>) {
    if s.len() >= 1 && is_exponent_marker(s[0]) {
        let d: int = if s.len() >= 2 && is_sign(s[1]) { 2 } else { 1 };
        if s.len() > d && is_digit(s[d]) {
            let m = digit_run(s.skip(d)) as int;
            (Some(s.subrange(1, d + m)), s.skip(d + m))
        } else {
            (None, s)
        }
    } else {
        (None, s)
    }
}

/// The number literal at the start of `s`, which begins with a digit, and
/// what follows it.
pub open spec fn scan_number(s: Seq<char>) -> (SpecToken, Seq<char>) {
    let n = digit_run(s);
    let (fraction, r1) = scan_fraction(s.skip(n as int));
    let (exponent, r2) = scan_exponent(r1);
    (SpecToken::Number(s.take(n as int), fraction, exponent), r2)
}

/// The message of the error token for an unexpected character.
pub open spec fn unexpected_message(c: char) -> Seq<char> {
    seq!['u', 'n', 'e', 'x', 'p', 'e', 'c', 't', 'e', 'd', ' ', 'c', 'h', 'a', 'r', 'a', 'c', 't', 'e', 'r', ' ', '\'']
        + seq![c] + seq!['\'']
}

/// The next token of `s` and the text after it.
pub open spec fn scan(s: Seq<char>) -> (SpecToken, Seq<char>) {
    let t = skip_blanks(s);
    if t.len() == 0 {
        (SpecToken::Eof, t)
    } else if t[0] == '\n' {
        (SpecToken::Newline, t.drop_first())
    } else if is_digit(t[0]) {
        scan_number(t)
    } else if operator_of(t[0]) is Some {
        (operator_of(t[0])->0, t.drop_first())
    } else if ident_start(t[0]) {
        let n = ident_run(t);
        (SpecToken::Ident(t.take(n as int)), t.skip(n as int))
    } else {
        (SpecToken::Error(unexpected_message(t[0])), t.drop_first())
    }
}

/// The tokens of `s` up to the end of input, the end marker left out.
pub open spec fn tokenize(s: Seq<char>) -> Seq<SpecToken>
    decreases s.len(),
    via tokenize_decreases
{
    let (t, r) = scan(s);
    if t is Eof {
        seq![]
    } else {
        seq![t] + tokenize(r)
    }
}

pub proof fn lemma_skip_blanks(s: Seq<char>)
    ensures
        skip_blanks(s).len() <= s.len(),
        skip_blanks(s).len() > 0 ==> !is_blank(skip_blanks(s)[0]),
        exists|k: int| 0 <= k <= s.len() && skip_blanks(s) == s.skip(k),
    decreases s.len(),
{
    if s.len() > 0 && is_blank(s[0]) {
        lemma_skip_blanks(s.drop_first());
        let k = choose|k: int| 0 <= k <= s.drop_first().len() && skip_blanks(s.drop_first()) == s.drop_first().skip(k);
        assert(s.drop_first().skip(k) == s.skip(k + 1));
    } else {
        assert(s == s.skip(0));
    }
}

pub proof fn lemma_digit_run(s: Seq<char>)
    ensures
        digit_run(s) <= s.len(),
        forall|i: int| 0 <= i < digit_run(s) ==> is_digit(#[trigger] s[i]),
        digit_run(s) < s.len() ==> !is_digit(s[digit_run(s) as int]),
    decreases s.len(),
{
    if s.len() > 0 && is_digit(s[0]) {
        lemma_digit_run(s.drop_first());
        assert forall|i: int| 0 <= i < digit_run(s) implies is_digit(#[trigger] s[i]) by {
            if i > 0 {
                assert(s[i] == s.drop_first()[i - 1]);
            }
        }
    }
}

pub proof fn lemma_ident_run(s: Seq<char>)
    ensures
        ident_run(s) <= s.len(),
        forall|i: int| 0 <= i < ident_run(s) ==> ident_char(#[trigger] s[i]),
        ident_run(s) < s.len() ==> !ident_char(s[ident_run(s) as int]),
    decreases s.len(),
{
    if s.len() > 0 && ident_char(s[0]) {
        lemma_ident_run(s.drop_first());
        assert forall|i: int| 0 <= i < ident_run(s) implies ident_char(#[trigger] s[i]) by {
            if i > 0 {
                assert(s[i] == s.drop_first()[i - 1]);
            }
        }
    }
}

/// Each token other than the end marker consumes at least one character.
pub proof fn lemma_scan_progress(s: Seq<char>)
    ensures
        !(scan(s).0 is Eof) ==> scan(s).1.len() < s.len(),
        scan(s).0 is Eof ==> skip_blanks(s).len() == 0,
{
    let t = skip_blanks(s);
    lemma_skip_blanks(s);
    if t.len() > 0 && is_digit(t[0]) {
        let n = digit_run(t);
        lemma_digit_run(t);
        let r0 = t.skip(n as int);
        let r1 = scan_fraction(r0).1;
        if r0.len() >= 2 && r0[0] == '.' && is_digit(r0[1]) {
            lemma_digit_run(r0.drop_first());
        }
        if r1.len() >= 1 && is_exponent_marker(r1[0]) {
            let d: int = if r1.len() >= 2 && is_sign(r1[1]) { 2 } else { 1 };
            if r1.len() > d && is_digit(r1[d]) {
                lemma_digit_run(r1.skip(d));
            }
        }
    } else if t.len() > 0 && t[0] != '\n' && operator_of(t[0]) is None && ident_start(t[0]) {
        lemma_ident_run(t);
    }
}

/// Tokenizing any text ends after at most one token per character.
pub proof fn lemma_tokenize_bounded(s: Seq<char>)
    ensures
        tokenize(s).len() <= s.len(),
    decreases s.len(),
{
    lemma_scan_progress(s);
    if !(scan(s).0 is Eof) {
        lemma_tokenize_bounded(scan(s).1);
    }
}

/// Once the end marker has been produced, every later request produces it again.
pub proof fn lemma_eof_stays(s: Seq<char>)
    requires
        scan(s).0 is Eof,
    ensures
        scan(scan(s).1).0 is Eof,
        scan(scan(s).1).1 == scan(s).1,
{
    lemma_scan_progress(s);
}

#[via_fn]
proof fn tokenize_decreases(s: Seq<char>) {
    lemma_scan_progress(s);
}

} // verus!
