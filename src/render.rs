//! The debug rendering of a token sequence as text, and the laws that tie it
//! back to the scanner.

use vstd::prelude::*;
use vstd::string::StringExecFns;
use crate::grammar::{
    digit_run, ident_char, ident_run, ident_start, is_digit, is_sign, lemma_digit_run,
    lemma_ident_run, lemma_scan_progress, scan, scan_exponent, scan_fraction, scan_number,
    skip_blanks, tokenize,
};
use crate::token::{SpecToken, Token, view_tokens};

verus! {

/// The text of a token in the debug rendering: identifiers and numbers are
/// followed by a space, operators and line breaks stand as their character,
/// errors are bracketed, and the end marker is empty.
pub open spec fn rendered_token(t: SpecToken) -> Seq<char> {
    match t {
        SpecToken::Eof => seq![],
        SpecToken::Newline => seq!['\n'],
        SpecToken::Ident(n) => n + seq![' '],
        SpecToken::Number(i, f, e) => i + rendered_fraction(f) + rendered_exponent(e) + seq![' '],
        SpecToken::LPar => seq!['('],
        SpecToken::RPar => seq![')'],
        SpecToken::Bang => seq!['!'],
        SpecToken::Slash => seq!['/'],
        SpecToken::Pipe => seq!['|'],
        SpecToken::Caret => seq!['^'],
        SpecToken::Plus => seq!['+'],
        SpecToken::Dash => seq!['-'],
        SpecToken::Asterisk => seq!['*'],
        SpecToken::Error(m) => seq!['<', 'e', 'r', 'r', 'o', 'r', ':', ' '] + m + seq!['>'],
    }
}

/// The debug rendering of a token sequence: the renderings of its tokens, in order.
pub open spec fn rendered(ts: Seq<SpecToken>) -> Seq<char>
    decreases ts.len(),
{
    if ts.len() == 0 {
        seq![]
    } else {
        rendered_token(ts[0]) + rendered(ts.drop_first())
    }
}

pub open spec fn all_digits(s: Seq<char>) -> bool {
    forall|i: int| 0 <= i < s.len() ==> is_digit(#[trigger] s[i])
}

/// A non-empty run of digits.
pub open spec fn is_digit_text(s: Seq<char>) -> bool {
    s.len() > 0 && all_digits(s)
}

/// The text of an exponent: digits, with an optional leading sign.
pub open spec fn is_exponent_text(s: Seq<char>) -> bool {
    is_digit_text(s) || (s.len() > 1 && is_sign(s[0]) && is_digit_text(s.drop_first()))
}

/// The text of an identifier.
pub open spec fn is_ident_text(s: Seq<char>) -> bool {
    s.len() > 0 && ident_start(s[0]) && forall|i: int| 0 <= i < s.len() ==> ident_char(
        #[trigger] s[i],
    )
}

/// A token that the scanner can produce and that reads back from its
/// rendering: neither the end marker nor an error, with well-formed texts.
pub open spec fn renderable(t: SpecToken) -> bool {
    match t {
        SpecToken::Eof => false,
        SpecToken::Error(_) => false,
        SpecToken::Ident(n) => is_ident_text(n),
        SpecToken::Number(i, f, e) => is_digit_text(i) && (f is Some ==> is_digit_text(f->0)) && (
        e is Some ==> is_exponent_text(e->0)),
        _ => true,
    }
}

proof fn lemma_digit_run_concat(a: Seq<char>, b: Seq<char>)
    requires
        all_digits(a),
        b.len() == 0 || !is_digit(b[0]),
    ensures
        digit_run(a + b) == a.len(),
    decreases a.len(),
{
    if a.len() == 0 {
        assert(a + b =~= b);
    } else {
        assert((a + b).drop_first() =~= a.drop_first() + b);
        lemma_digit_run_concat(a.drop_first(), b);
    }
}

proof fn lemma_ident_run_concat(a: Seq<char>, b: Seq<char>)
    requires
        forall|i: int| 0 <= i < a.len() ==> ident_char(#[trigger] a[i]),
        b.len() == 0 || !ident_char(b[0]),
    ensures
        ident_run(a + b) == a.len(),
    decreases a.len(),
{
    if a.len() == 0 {
        assert(a + b =~= b);
    } else {
        assert((a + b).drop_first() =~= a.drop_first() + b);
        lemma_ident_run_concat(a.drop_first(), b);
    }
}

/// Leading blanks do not change the tokens of a text.
proof fn lemma_tokenize_blank(r: Seq<char>)
    ensures
        tokenize(seq![' '] + r) == tokenize(r),
{
    let x = seq![' '] + r;
    assert(x.drop_first() =~= r);
    assert(skip_blanks(x) == skip_blanks(r));
    assert(scan(x) == scan(r));
}

pub open spec fn rendered_fraction(f: Option<Seq<char>>) -> Seq<char> {
    match f {
        Some(f) => seq!['.'] + f,
        None => seq![],
    }
}

pub open spec fn rendered_exponent(e: Option<Seq<char>>) -> Seq<char> {
    match e {
        Some(e) => seq!['e'] + e,
        None => seq![],
    }
}

proof fn lemma_scan_rendered_fraction(f: Option<Seq<char>>, rest: Seq<char>)
    requires
        f is Some ==> is_digit_text(f->0),
        rest.len() > 0,
        rest[0] != '.',
        !is_digit(rest[0]),
    ensures
        scan_fraction(rendered_fraction(f) + rest) == (f, rest),
{
    let x = rendered_fraction(f) + rest;
    match f {
        Some(fv) => {
            assert(x.drop_first() =~= fv + rest);
            lemma_digit_run_concat(fv, rest);
            assert(x.subrange(1, 1 + fv.len() as int) =~= fv);
            assert(x.skip(1 + fv.len() as int) =~= rest);
        },
        None => {
            assert(x =~= rest);
        },
    }
}

proof fn lemma_scan_rendered_exponent(e: Option<Seq<char>>, r: Seq<char>)
    requires
        e is Some ==> is_exponent_text(e->0),
    ensures
        scan_exponent(rendered_exponent(e) + (seq![' '] + r)) == (e, seq![' '] + r),
{
    let b = seq![' '] + r;
    let x = rendered_exponent(e) + b;
    match e {
        Some(ev) => {
            if is_sign(ev[0]) {
                let digits = ev.drop_first();
                assert(x.skip(2) =~= digits + b);
                lemma_digit_run_concat(digits, b);
                assert(x.subrange(1, 2 + digits.len() as int) =~= ev);
                assert(x.skip(2 + digits.len() as int) =~= b);
            } else {
                assert(is_digit_text(ev));
                assert(x.skip(1) =~= ev + b);
                lemma_digit_run_concat(ev, b);
                assert(x.subrange(1, 1 + ev.len() as int) =~= ev);
                assert(x.skip(1 + ev.len() as int) =~= b);
            }
        },
        None => {
            assert(x =~= b);
        },
    }
}

proof fn lemma_scan_rendered_number(
    i: Seq<char>,
    f: Option<Seq<char>>,
    e: Option<Seq<char>>,
    r: Seq<char>,
)
    requires
        renderable(SpecToken::Number(i, f, e)),
    ensures
        scan_number(rendered_token(SpecToken::Number(i, f, e)) + r) == (
            SpecToken::Number(i, f, e),
            seq![' '] + r,
        ),
{
    let b = seq![' '] + r;
    let after_frac = rendered_exponent(e) + b;
    let after_int = rendered_fraction(f) + after_frac;
    let x = rendered_token(SpecToken::Number(i, f, e)) + r;
    assert(x =~= i + after_int);
    assert(after_int.len() > 0 && !is_digit(after_int[0]));
    lemma_digit_run_concat(i, after_int);
    assert(x.take(i.len() as int) =~= i);
    assert(x.skip(i.len() as int) =~= after_int);
    lemma_scan_rendered_fraction(f, after_frac);
    lemma_scan_rendered_exponent(e, r);
}

/// Scanning the rendering of a token gives the token back, and leaves text
/// whose tokens are those of what followed the rendering.
proof fn lemma_scan_rendered(t: SpecToken, r: Seq<char>)
    requires
        renderable(t),
    ensures
        scan(rendered_token(t) + r).0 == t,
        tokenize(scan(rendered_token(t) + r).1) == tokenize(r),
{
    let x = rendered_token(t) + r;
    assert(x.len() > 0 && !(x[0] == ' ' || x[0] == '\t'));
    assert(skip_blanks(x) == x);
    match t {
        SpecToken::Ident(n) => {
            let b = seq![' '] + r;
            assert(x =~= n + b);
            lemma_ident_run_concat(n, b);
            assert(x.take(n.len() as int) =~= n);
            assert(x.skip(n.len() as int) =~= b);
            lemma_tokenize_blank(r);
        },
        SpecToken::Number(i, f, e) => {
            lemma_scan_rendered_number(i, f, e, r);
            lemma_tokenize_blank(r);
        },
        _ => {
            assert(x.drop_first() =~= r);
        },
    }
}

/// The rendering of a sequence of renderable tokens scans back to the same
/// tokens: kinds, identifier texts and the digit texts of numbers.
pub proof fn lemma_render_round_trip(ts: Seq<SpecToken>)
    requires
        forall|i: int| 0 <= i < ts.len() ==> renderable(#[trigger] ts[i]),
    ensures
        tokenize(rendered(ts)) == ts,
    decreases ts.len(),
{
    if ts.len() == 0 {
        assert(tokenize(seq![]) =~= ts);
    } else {
        let rest = ts.drop_first();
        assert forall|i: int| 0 <= i < rest.len() implies renderable(#[trigger] rest[i]) by {
            assert(rest[i] == ts[i + 1]);
        }
        lemma_render_round_trip(rest);
        lemma_scan_rendered(ts[0], rendered(rest));
        assert(tokenize(rendered(ts)) =~= seq![ts[0]] + rest);
    }
}

proof fn lemma_rendered_push(ts: Seq<SpecToken>, t: SpecToken)
    ensures
        rendered(ts.push(t)) == rendered(ts) + rendered_token(t),
    decreases ts.len(),
{
    if ts.len() == 0 {
        let empty = Seq::<SpecToken>::empty();
        assert(ts.push(t).drop_first() =~= empty);
        assert(rendered(empty) == Seq::<char>::empty());
        assert(ts.push(t)[0] == t);
        assert(rendered(ts.push(t)) =~= rendered(ts) + rendered_token(t));
    } else {
        assert(ts.push(t).drop_first() =~= ts.drop_first().push(t));
        lemma_rendered_push(ts.drop_first(), t);
        assert(rendered(ts.push(t)) =~= rendered(ts) + rendered_token(t));
    }
}

/// Appends the debug rendering of `t` to `out`.
pub fn render_token(t: &Token, out: &mut String)
    ensures
        final(out)@ == old(out)@ + rendered_token(t@),
{
    proof {
        reveal_strlit("\n");
        reveal_strlit(" ");
        reveal_strlit(".");
        reveal_strlit("e");
        reveal_strlit("(");
        reveal_strlit(")");
        reveal_strlit("!");
        reveal_strlit("/");
        reveal_strlit("|");
        reveal_strlit("^");
        reveal_strlit("+");
        reveal_strlit("-");
        reveal_strlit("*");
        reveal_strlit("<error: ");
        reveal_strlit(">");
    }
    let ghost o0 = out@;
    match t {
        Token::Eof => {},
        Token::Newline => out.append("\n"),
        Token::Ident(n) => {
            out.append(n.as_str());
            out.append(" ");
        },
        Token::Number(i, f, e) => {
            out.append(i.as_str());
            match f {
                Some(f) => {
                    out.append(".");
                    out.append(f.as_str());
                },
                None => {},
            }
            match e {
                Some(e) => {
                    out.append("e");
                    out.append(e.as_str());
                },
                None => {},
            }
            out.append(" ");
        },
        Token::LPar => out.append("("),
        Token::RPar => out.append(")"),
        Token::Bang => out.append("!"),
        Token::Slash => out.append("/"),
        Token::Pipe => out.append("|"),
        Token::Caret => out.append("^"),
        Token::Plus => out.append("+"),
        Token::Dash => out.append("-"),
        Token::Asterisk => out.append("*"),
        Token::Error(m) => {
            out.append("<error: ");
            out.append(m.as_str());
            out.append(">");
        },
    }
    assert(out@ =~= o0 + rendered_token(t@));
}

/// The debug rendering of a token sequence.
pub fn render(tokens: &Vec<Token>) -> (r: String)
    ensures
        r@ == rendered(view_tokens(tokens@)),
{
    let mut out = String::new();
    let mut i: usize = 0;
    while i < tokens.len()
        invariant
            i <= tokens@.len(),
            out@ == rendered(view_tokens(tokens@.take(i as int))),
        decreases tokens@.len() - i,
    {
        proof {
            assert(view_tokens(tokens@.take(i + 1)) =~= view_tokens(tokens@.take(i as int)).push(
                tokens@[i as int]@,
            ));
            lemma_rendered_push(view_tokens(tokens@.take(i as int)), tokens@[i as int]@);
        }
        render_token(&tokens[i], &mut out);
        i = i + 1;
    }
    assert(tokens@.take(i as int) =~= tokens@);
    out
}

/// Every token the scanner produces, other than the end marker and errors, is
/// renderable.
proof fn lemma_scan_renderable(s: Seq<char>)
    ensures
        !(scan(s).0 is Eof) && !(scan(s).0 is Error) ==> renderable(scan(s).0),
{
    let t = skip_blanks(s);
    if t.len() > 0 && t[0] != '\n' && is_digit(t[0]) {
        let n = digit_run(t) as int;
        lemma_digit_run(t);
        let r0 = t.skip(n);
        if r0.len() >= 2 && r0[0] == '.' && is_digit(r0[1]) {
            lemma_digit_run(r0.drop_first());
            let m = digit_run(r0.drop_first()) as int;
            let fv = r0.subrange(1, 1 + m);
            assert forall|k: int| 0 <= k < fv.len() implies is_digit(#[trigger] fv[k]) by {
                assert(fv[k] == r0.drop_first()[k]);
            }
        }
        let r1 = scan_fraction(r0).1;
        if r1.len() >= 1 && (r1[0] == 'e' || r1[0] == 'E') {
            let d: int = if r1.len() >= 2 && is_sign(r1[1]) { 2 } else { 1 };
            if r1.len() > d && is_digit(r1[d]) {
                lemma_digit_run(r1.skip(d));
                let m = digit_run(r1.skip(d)) as int;
                let ev = r1.subrange(1, d + m);
                if d == 2 {
                    assert forall|k: int| 0 <= k < ev.drop_first().len() implies is_digit(
                        #[trigger] ev.drop_first()[k],
                    ) by {
                        assert(ev.drop_first()[k] == r1.skip(d)[k]);
                    }
                } else {
                    assert forall|k: int| 0 <= k < ev.len() implies is_digit(#[trigger] ev[k]) by {
                        assert(ev[k] == r1.skip(d)[k]);
                    }
                }
            }
        }
    } else if t.len() > 0 && t[0] != '\n' && ident_start(t[0]) {
        lemma_ident_run(t);
        let n = ident_run(t) as int;
        assert(n >= 1);
    }
}

/// The tokens of a text, other than errors, are renderable.
pub proof fn lemma_tokenize_renderable(s: Seq<char>)
    ensures
        forall|i: int|
            0 <= i < tokenize(s).len() && !(tokenize(s)[i] is Error) ==> renderable(
                #[trigger] tokenize(s)[i],
            ),
    decreases s.len(),
{
    lemma_scan_progress(s);
    lemma_scan_renderable(s);
    if !(scan(s).0 is Eof) {
        let r = scan(s).1;
        lemma_tokenize_renderable(r);
        assert forall|i: int|
            0 <= i < tokenize(s).len() && !(tokenize(s)[i] is Error) implies renderable(
                #[trigger] tokenize(s)[i],
            ) by {
            if i > 0 {
                assert(tokenize(s)[i] == tokenize(r)[i - 1]);
            }
        }
    }
}

/// Rendering the tokens of a text in the debug format and scanning the result
/// again gives the same tokens, wherever the text holds no lexical error.
pub proof fn lemma_tokens_round_trip(s: Seq<char>)
    requires
        forall|i: int| 0 <= i < tokenize(s).len() ==> !(#[trigger] tokenize(s)[i] is Error),
    ensures
        tokenize(rendered(tokenize(s))) == tokenize(s),
{
    lemma_tokenize_renderable(s);
    lemma_render_round_trip(tokenize(s));
}

} // verus!
