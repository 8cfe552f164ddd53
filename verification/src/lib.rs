//! A lexical scanner for a small parenthesized expression language.
//!
//! The scanner turns a borrowed text buffer into a stream of tokens:
//! grouping characters, single-character operators and punctuation, and
//! decimal number literals. Whitespace between tokens is skipped. The
//! stream offers one token of lookahead (`peek`) beside the usual
//! consume-and-advance step (`next`). Once the input is exhausted, or an
//! unrecognized character is reached, the stream permanently yields
//! nothing; the two conditions are deliberately not distinguished.

pub mod token;
pub mod scan;
pub mod lexer;
pub mod laws;
