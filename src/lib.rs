//! Lexical scanner for unit-definition text: turns source text into a
//! stream of classified tokens for a downstream parser.
//!
//! - `cursor`: character-level reading over a borrowed text.
//! - `grammar`: the lexical grammar as spec functions over character sequences.
//! - `token`: the token type and its model.
//! - `lexer`: the token iterator and the driver that drains it.
//! - `render`: the debug rendering of tokens, and its round trip through the scanner.

use vstd::prelude::*;

pub mod cursor;
pub mod grammar;
pub mod lexer;
pub mod render;
pub mod token;

pub use lexer::{StreamError, TokenIterator, tokens};
pub use render::{render, render_token};
pub use token::Token;

verus! {

} // verus!
