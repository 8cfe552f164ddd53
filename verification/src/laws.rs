//! General laws of the scanner, proved over the model in `scan`.
//!
//! Each law quantifies over all inputs of its shape; the executable
//! matchers and the `Lexer` are tied to the same model by their own
//! contracts, so these laws carry over to them.

use vstd::prelude::*;
use crate::token::{Token, char_token};
use crate::scan::{
    is_space, is_digit, digits_value, skip_spaces, scan_one, tokens_of, lemma_digit_run_len_is,
    lemma_digit_is_no_other, lemma_symbol_is_no_other,
};

verus! {

/// A supported single-character lexeme followed by any other character
/// scans to that lexeme's token, with exactly the other character left
/// over.
pub proof fn lemma_single_char_then_any(l: char, t: Token, c: char)
    requires
        char_token(l) == Some(t),
    ensures
        scan_one(seq![l, c]) == Some((t, seq![c])),
{
    let s = seq![l, c];
    lemma_symbol_is_no_other(l);
    assert(s[0] == l);
    assert(skip_spaces(s) == s);
    assert(s.drop_first() =~= seq![c]);
}

/// A non-empty string of digits whose value fits in an `i32` scans to one
/// `Number` token carrying that value, with nothing left over.
pub proof fn lemma_scan_digits(d: Seq<char>)
    requires
        d.len() > 0,
        forall|k: int| 0 <= k < d.len() ==> is_digit(d[k]),
        digits_value(d) <= i32::MAX as int,
    ensures
        scan_one(d) == Some((Token::Number(digits_value(d) as i32), Seq::<char>::empty())),
{
    lemma_digit_is_no_other(d[0]);
    assert(skip_spaces(d) == d);
    lemma_digit_run_len_is(d, d.len() as int);
    assert(d.take(d.len() as int) =~= d);
    assert(d.skip(d.len() as int) =~= Seq::<char>::empty());
}

/// A non-empty digit string followed by a non-digit character scans to the
/// `Number` token of the digits, with exactly that character left over;
/// the digit string alone scans to the same token with nothing left.
pub proof fn lemma_digits_then_delimiter(d: Seq<char>, c: char)
    requires
        d.len() > 0,
        forall|k: int| 0 <= k < d.len() ==> is_digit(d[k]),
        !is_digit(c),
        digits_value(d) <= i32::MAX as int,
    ensures
        scan_one(d + seq![c]) == Some((Token::Number(digits_value(d) as i32), seq![c])),
        scan_one(d) == Some((Token::Number(digits_value(d) as i32), Seq::<char>::empty())),
{
    let s = d + seq![c];
    assert(s[0] == d[0]);
    lemma_digit_is_no_other(d[0]);
    assert(skip_spaces(s) == s);
    assert(forall|k: int| 0 <= k < d.len() ==> is_digit(#[trigger] s[k]));
    assert(!is_digit(s[d.len() as int]));
    lemma_digit_run_len_is(s, d.len() as int);
    assert(s.take(d.len() as int) =~= d);
    assert(s.skip(d.len() as int) =~= seq![c]);
    lemma_scan_digits(d);
}

/// A digit run immediately preceded by `+` or `-` lexes as two tokens,
/// the operator and then the number — never as one signed number.
pub proof fn lemma_operator_then_digits(op: char, d: Seq<char>)
    requires
        op == '+' || op == '-',
        d.len() > 0,
        forall|k: int| 0 <= k < d.len() ==> is_digit(d[k]),
        digits_value(d) <= i32::MAX as int,
    ensures
        tokens_of(seq![op] + d) == seq![
            (if op == '+' {
                Token::Plus
            } else {
                Token::Minus
            }),
            Token::Number(digits_value(d) as i32),
        ],
{
    let s = seq![op] + d;
    let t = (if op == '+' {
        Token::Plus
    } else {
        Token::Minus
    });
    lemma_symbol_is_no_other(op);
    assert(s[0] == op);
    assert(skip_spaces(s) == s);
    assert(char_token(op) == Some(t));
    assert(s.drop_first() =~= d);
    assert(scan_one(s) == Some((t, d)));
    lemma_scan_digits(d);
    let num = Token::Number(digits_value(d) as i32);
    assert(scan_one(Seq::<char>::empty()) is None);
    assert(tokens_of(Seq::<char>::empty()) =~= Seq::<Token>::empty());
    assert(tokens_of(d) =~= seq![num]);
    assert(tokens_of(s) =~= seq![t, num]);
}

/// Prepending whitespace leaves the trimmed input unchanged.
pub proof fn lemma_skip_spaces_prepend(w: Seq<char>, s: Seq<char>)
    requires
        forall|k: int| 0 <= k < w.len() ==> is_space(w[k]),
    ensures
        skip_spaces(w + s) == skip_spaces(s),
    decreases w.len(),
{
    if w.len() == 0 {
        assert(w + s =~= s);
    } else {
        assert((w + s)[0] == w[0]);
        assert((w + s).drop_first() =~= w.drop_first() + s);
        assert(forall|k: int| 0 <= k < w.drop_first().len() ==> is_space(
            #[trigger] w.drop_first()[k],
        ));
        lemma_skip_spaces_prepend(w.drop_first(), s);
    }
}

/// Leading whitespace of any length is fully skipped: it neither produces
/// a token nor changes a single scan step, nor the token stream.
pub proof fn lemma_whitespace_skipped(w: Seq<char>, s: Seq<char>)
    requires
        forall|k: int| 0 <= k < w.len() ==> is_space(w[k]),
    ensures
        scan_one(w + s) == scan_one(s),
        tokens_of(w + s) == tokens_of(s),
{
    lemma_skip_spaces_prepend(w, s);
    assert(tokens_of(w + s) =~= tokens_of(s));
}

} // verus!
