//! Character-level reading over a borrowed text buffer.

use vstd::prelude::*;
use vstd::string::StrSliceExecFns;

verus! {

broadcast use vstd::string::group_string_axioms;

/// Relies on `Chars::as_str`: after one `next`, it yields the text that
/// follows the first character.
#[verifier::external_body]
fn after_first<'a>(s: &'a str) -> (r: &'a str)
    requires
        s@.len() > 0,
    ensures
        r@ == s@.drop_first(),
{
    let mut it = s.chars();
    it.next();
    it.as_str()
}

/// The first character of `s`, or `None` at the end of the text.
pub fn first_char(s: &str) -> (r: Option<char>)
    ensures
        s@.len() == 0 ==> r is None,
        s@.len() > 0 ==> r == Some(s@[0]),
{
    let mut it = s.chars();
    it.next()
}

/// A reading position in a borrowed text: what is left to read.
pub struct Cursor<'a> {
    rest: &'a str,
}

impl<'a> View for Cursor<'a> {
    type V = Seq<char>;

    closed spec fn view(&self) -> Seq<char> {
        self.rest@
    }
}

impl<'a> Cursor<'a> {
    pub fn new(text: &'a str) -> (r: Cursor<'a>)
        ensures
            r@ == text@,
    {
        Cursor { rest: text }
    }

    /// The next character, without consuming it.
    pub fn peek(&self) -> (r: Option<char>)
        ensures
            self@.len() == 0 ==> r is None,
            self@.len() > 0 ==> r == Some(self@[0]),
    {
        first_char(self.rest)
    }

    /// The character after the next one, without consuming anything.
    pub fn peek_second(&self) -> (r: Option<char>)
        ensures
            self@.len() <= 1 ==> r is None,
            self@.len() > 1 ==> r == Some(self@[1]),
    {
        if self.rest.is_empty() {
            None
        } else {
            first_char(after_first(self.rest))
        }
    }

    /// The character two places after the next one, without consuming anything.
    pub fn peek_third(&self) -> (r: Option<char>)
        ensures
            self@.len() <= 2 ==> r is None,
            self@.len() > 2 ==> r == Some(self@[2]),
    {
        if self.rest.is_empty() {
            None
        } else {
            let second = after_first(self.rest);
            if second.is_empty() {
                None
            } else {
                first_char(after_first(second))
            }
        }
    }

    /// The next character as a text slice of the buffer.
    pub fn next_str(&self) -> (r: &'a str)
        requires
            self@.len() > 0,
        ensures
            r@ == seq![self@[0]],
    {
        let r = self.rest.substring_char(0, 1);
        assert(r@ =~= seq![self@[0]]);
        r
    }

    /// Consumes the next character and returns it; `None` at the end.
    pub fn advance(&mut self) -> (r: Option<char>)
        ensures
            old(self)@.len() == 0 ==> r is None && final(self)@ == old(self)@,
            old(self)@.len() > 0 ==> r == Some(old(self)@[0]) && final(self)@
                == old(self)@.drop_first(),
    {
        let c = first_char(self.rest);
        if c.is_some() {
            self.rest = after_first(self.rest);
        }
        c
    }
}

} // verus!
