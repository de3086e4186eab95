//! Lexer module for tokenizing source code.
//! Text -> Tokens

mod lexer;
mod spec;

pub use lexer::{Lexer, CharClass};
pub use spec::{is_space, is_digit, is_ident_start, is_ident_char, skip_spaces, digits_end, ident_end, digit_value, digits_value, keyword, punct, char_after, token_matches, scanned, lemma_skip_spaces, lemma_token_matches_grow, lemma_scanned_grow, lemma_scanned_push, lemma_digits_end, lemma_ident_end};
