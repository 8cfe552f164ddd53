//! The mathematical model of one scan step and of the full token stream.
//!
//! Everything here is specification: `scan_one` says what one step of the
//! scanner produces from a sequence of characters, and `tokens_of` folds
//! that step into the complete token sequence. The executable matchers in
//! `lexer` are proved against these functions.

use vstd::prelude::*;
use crate::token::{Token, char_token};

verus! {

/// Whether a character is whitespace: the fixed set of code points that
/// carry the White_Space property, which the scanner skips between tokens.
pub open spec fn is_space(c: char) -> bool {
    let n = c as u32;
    n == 0x20 || (0x09 <= n && n <= 0x0D) || n == 0x85 || n == 0xA0 || n == 0x1680 || (0x2000
        <= n && n <= 0x200A) || n == 0x2028 || n == 0x2029 || n == 0x202F || n == 0x205F || n
        == 0x3000
}

/// Whether a character is a decimal digit.
pub open spec fn is_digit(c: char) -> bool {
    0x30 <= c as u32 && c as u32 <= 0x39
}

/// The numeric value of a decimal digit character.
pub open spec fn digit_val(c: char) -> int {
    c as u32 - 0x30
}

/// The value of a string of decimal digits, most significant first.
pub open spec fn digits_value(s: Seq<char>) -> int
    decreases s.len(),
{
    if s.len() == 0 {
        0
    } else {
        digits_value(s.drop_last()) * 10 + digit_val(s.last())
    }
}

/// The length of the longest prefix of `s` made of decimal digits.
pub open spec fn digit_run_len(s: Seq<char>) -> int
    decreases s.len(),
{
    if s.len() > 0 && is_digit(s[0]) {
        1 + digit_run_len(s.drop_first())
    } else {
        0
    }
}

/// `s` with its longest whitespace prefix removed.
pub open spec fn skip_spaces(s: Seq<char>) -> Seq<char>
    decreases s.len(),
{
    if s.len() > 0 && is_space(s[0]) {
        skip_spaces(s.drop_first())
    } else {
        s
    }
}

/// What a single-character matcher produces: its token and the rest of the
/// input, if the input starts with the matcher's target character.
pub open spec fn char_match(s: Seq<char>, target: char, token: Token) -> Option<(Token, Seq<char>)> {
    if s.len() > 0 && s[0] == target {
        Some((token, s.drop_first()))
    } else {
        None
    }
}

/// What the number matcher produces: the value of the longest digit prefix
/// as a `Number` token and the rest of the input. The match fails when
/// there is no digit prefix, and when the value does not fit in an `i32`.
pub open spec fn number_match(s: Seq<char>) -> Option<(Token, Seq<char>)> {
    let n = digit_run_len(s);
    if n == 0 {
        None
    } else if digits_value(s.take(n)) <= i32::MAX as int {
        Some((Token::Number(digits_value(s.take(n)) as i32), s.skip(n)))
    } else {
        None
    }
}

/// One scan step: skip leading whitespace, then hand the input to the first
/// matcher that recognizes its head — one of the fixed single-character
/// matchers, or the number matcher. `None` both at the end of the input and
/// at an unrecognized character; the two are deliberately not told apart.
pub open spec fn scan_one(s: Seq<char>) -> Option<(Token, Seq<char>)> {
    let t = skip_spaces(s);
    if t.len() == 0 {
        None
    } else {
        match char_token(t[0]) {
            Some(token) => Some((token, t.drop_first())),
            None => number_match(t),
        }
    }
}

/// The complete token sequence of an input: scan steps applied until one
/// fails, which cuts the stream short with no further tokens.
pub open spec fn tokens_of(s: Seq<char>) -> Seq<Token>
    decreases s.len(),
    via tokens_of_decreases
{
    match scan_one(s) {
        Some(p) => seq![p.0] + tokens_of(p.1),
        None => Seq::empty(),
    }
}

#[via_fn]
proof fn tokens_of_decreases(s: Seq<char>) {
    lemma_scan_one_consumes(s);
}

/// Skipping whitespace never lengthens the input.
pub proof fn lemma_skip_spaces_len(s: Seq<char>)
    ensures
        skip_spaces(s).len() <= s.len(),
    decreases s.len(),
{
    if s.len() > 0 && is_space(s[0]) {
        lemma_skip_spaces_len(s.drop_first());
    }
}

/// A digit run is a well-formed prefix: within bounds, all digits, and
/// ended by the end of the input or by a non-digit.
pub proof fn lemma_digit_run_len_bounds(s: Seq<char>)
    ensures
        0 <= digit_run_len(s) <= s.len(),
        forall|k: int| 0 <= k < digit_run_len(s) ==> is_digit(s[k]),
        digit_run_len(s) < s.len() ==> !is_digit(s[digit_run_len(s)]),
    decreases s.len(),
{
    if s.len() > 0 && is_digit(s[0]) {
        lemma_digit_run_len_bounds(s.drop_first());
        assert forall|k: int| 0 <= k < digit_run_len(s) implies is_digit(s[k]) by {
            if k > 0 {
                assert(is_digit(s.drop_first()[k - 1]));
            }
        }
    }
}

/// A position that is preceded by digits only and not itself a digit
/// pins the digit run down: the run ends exactly there.
pub proof fn lemma_digit_run_len_is(s: Seq<char>, i: int)
    requires
        0 <= i <= s.len(),
        forall|k: int| 0 <= k < i ==> is_digit(s[k]),
        i < s.len() ==> !is_digit(s[i]),
    ensures
        digit_run_len(s) == i,
    decreases s.len(),
{
    if i == 0 {
    } else {
        assert(is_digit(s[0]));
        lemma_digit_run_len_is(s.drop_first(), i - 1);
    }
}

/// A decimal digit is neither whitespace nor a single-character lexeme.
pub proof fn lemma_digit_is_no_other(c: char)
    requires
        is_digit(c),
    ensures
        !is_space(c),
        char_token(c) is None,
{
}

/// A single-character lexeme is neither whitespace nor a digit.
pub proof fn lemma_symbol_is_no_other(c: char)
    requires
        char_token(c) is Some,
    ensures
        !is_space(c),
        !is_digit(c),
{
}

/// The value of a digit string is never negative.
pub proof fn lemma_digits_value_nonneg(s: Seq<char>)
    requires
        forall|k: int| 0 <= k < s.len() ==> is_digit(s[k]),
    ensures
        digits_value(s) >= 0,
    decreases s.len(),
{
    if s.len() > 0 {
        assert(forall|k: int| 0 <= k < s.drop_last().len() ==> is_digit(#[trigger] s.drop_last()[k]));
        lemma_digits_value_nonneg(s.drop_last());
    }
}

/// Reading one more digit multiplies the prefix value by ten and adds the
/// digit's value.
pub proof fn lemma_digits_value_snoc(s: Seq<char>, j: int)
    requires
        0 <= j < s.len(),
    ensures
        digits_value(s.take(j + 1)) == digits_value(s.take(j)) * 10 + digit_val(s[j]),
{
    assert(s.take(j + 1).drop_last() =~= s.take(j));
    assert(s.take(j + 1).last() == s[j]);
}

/// A digit string is worth at least any of its prefixes: its value only
/// grows as digits are appended.
pub proof fn lemma_digits_value_mono(s: Seq<char>, j: int)
    requires
        forall|k: int| 0 <= k < s.len() ==> is_digit(s[k]),
        0 <= j <= s.len(),
    ensures
        digits_value(s.take(j)) <= digits_value(s),
    decreases s.len(),
{
    if j == s.len() {
        assert(s.take(j) =~= s);
    } else {
        assert(forall|k: int| 0 <= k < s.drop_last().len() ==> is_digit(#[trigger] s.drop_last()[k]));
        lemma_digits_value_mono(s.drop_last(), j);
        assert(s.drop_last().take(j) =~= s.take(j));
        lemma_digits_value_nonneg(s.drop_last());
    }
}

/// A successful scan step consumes at least one character.
pub proof fn lemma_scan_one_consumes(s: Seq<char>)
    ensures
        scan_one(s) matches Some(p) ==> p.1.len() < s.len(),
{
    lemma_skip_spaces_len(s);
    let t = skip_spaces(s);
    if t.len() > 0 && char_token(t[0]) is None {
        lemma_digit_run_len_bounds(t);
    }
}

} // verus!
