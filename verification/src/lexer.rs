//! The executable scanner: the token matchers and the streaming `Lexer`.
//!
//! Each matcher is proved against its model in `scan`: the single-character
//! matchers against `char_match`, the number matcher against
//! `number_match`, and `Lexer::lex` against `scan_one`. The `Lexer` itself
//! is a cursor over a borrowed text buffer with one token of lookahead;
//! its `remaining` view ties `new`, `next` and `peek` to `tokens_of`.

use vstd::prelude::*;
use vstd::string::StrSliceExecFns;
use crate::token::Token;
use crate::scan::{
    is_space, is_digit, digits_value, digit_run_len, skip_spaces, char_match, number_match,
    scan_one, tokens_of, lemma_digit_run_len_is, lemma_digits_value_snoc, lemma_digits_value_mono,
};

verus! {

/// One successful match: the token produced and the input left after its
/// lexeme. It lives only for the single scan step that produced it.
#[derive(Debug, PartialEq)]
pub struct Lexed<'a> {
    pub token: Token,
    pub rest: &'a str,
}

impl<'a> Lexed<'a> {
    pub fn new(token: Token, rest: &'a str) -> (r: Lexed<'a>)
        ensures
            r.token == token,
            r.rest == rest,
    {
        Lexed { token, rest }
    }
}

/// Whether a matcher's result agrees with its model: a match carries
/// exactly the modelled token and remainder, a non-match only where the
/// model has none.
pub open spec fn lexed_matches<'a>(r: Option<Lexed<'a>>, m: Option<(Token, Seq<char>)>) -> bool {
    match r {
        Some(l) => m == Some((l.token, l.rest@)),
        None => m is None,
    }
}

/// Whether a character is whitespace, exactly as the model `is_space`
/// classifies it.
fn is_space_char(c: char) -> (r: bool)
    ensures
        r == is_space(c),
{
    let n = c as u32;
    n == 0x20 || (0x09 <= n && n <= 0x0D) || n == 0x85 || n == 0xA0 || n == 0x1680 || (0x2000
        <= n && n <= 0x200A) || n == 0x2028 || n == 0x2029 || n == 0x202F || n == 0x205F || n
        == 0x3000
}

/// Whether a character is a decimal digit, exactly as the model `is_digit`
/// classifies it.
fn is_digit_char(c: char) -> (r: bool)
    ensures
        r == is_digit(c),
{
    let n = c as u32;
    0x30 <= n && n <= 0x39
}

/// The input with its leading whitespace removed.
fn trim_start(code: &str) -> (r: &str)
    ensures
        r@ == skip_spaces(code@),
{
    let len = code.unicode_len();
    let mut i: usize = 0;
    proof {
        assert(code@.skip(0) =~= code@);
    }
    while i < len
        invariant
            i <= len,
            code@.len() == len as nat,
            skip_spaces(code@) == skip_spaces(code@.skip(i as int)),
        ensures
            i <= len,
            code@.len() == len as nat,
            skip_spaces(code@) == skip_spaces(code@.skip(i as int)),
            i == len || !is_space(code@[i as int]),
        decreases len - i,
    {
        let c = code.get_char(i);
        if !is_space_char(c) {
            break;
        }
        proof {
            assert(code@.skip(i as int)[0] == code@[i as int]);
            assert(code@.skip(i as int).drop_first() =~= code@.skip(i as int + 1));
        }
        i += 1;
    }
    proof {
        assert(skip_spaces(code@.skip(i as int)) == code@.skip(i as int));
    }
    code.substring_char(i, len)
}

/// The streaming scanner: the unconsumed suffix of the borrowed input,
/// and the next token already matched but not yet yielded.
#[derive(Debug, PartialEq)]
pub struct Lexer<'a> {
    current: Option<Token>,
    code: &'a str,
}

impl<'a> Lexer<'a> {
    /// The tokens not yet yielded: the lookahead, then everything the rest
    /// of the input scans to.
    pub closed spec fn remaining(self) -> Seq<Token> {
        match self.current {
            Some(t) => seq![t] + tokens_of(self.code@),
            None => Seq::empty(),
        }
    }

    /// Once the lookahead is gone the scanner is exhausted for good: its
    /// input has been replaced by the empty suffix.
    pub closed spec fn wf(self) -> bool {
        self.current is None ==> self.code@.len() == 0
    }

    /// A scanner positioned before the first token of `code`.
    pub fn new(code: &'a str) -> (r: Lexer<'a>)
        ensures
            r.wf(),
            r.remaining() == tokens_of(code@),
    {
        if let Some(lexed) = Self::lex(code) {
            Lexer { current: Some(lexed.token), code: lexed.rest }
        } else {
            proof {
                reveal_strlit("");
            }
            Lexer { current: None, code: "" }
        }
    }

    /// One scan step: skip leading whitespace, then try each matcher in
    /// the fixed priority order and take the first match.
    pub fn lex(code: &str) -> (r: Option<Lexed>)
        ensures
            lexed_matches(r, scan_one(code@)),
    {
        let trimmed = trim_start(code);
        if let Some(l) = Self::l_paren(trimmed) {
            return Some(l);
        }
        if let Some(l) = Self::r_paren(trimmed) {
            return Some(l);
        }
        if let Some(l) = Self::l_brace(trimmed) {
            return Some(l);
        }
        if let Some(l) = Self::r_brace(trimmed) {
            return Some(l);
        }
        if let Some(l) = Self::l_angle_bracket(trimmed) {
            return Some(l);
        }
        if let Some(l) = Self::r_angle_bracket(trimmed) {
            return Some(l);
        }
        if let Some(l) = Self::plus(trimmed) {
            return Some(l);
        }
        if let Some(l) = Self::minus(trimmed) {
            return Some(l);
        }
        if let Some(l) = Self::asterisk(trimmed) {
            return Some(l);
        }
        if let Some(l) = Self::slash(trimmed) {
            return Some(l);
        }
        if let Some(l) = Self::ban(trimmed) {
            return Some(l);
        }
        if let Some(l) = Self::underbar(trimmed) {
            return Some(l);
        }
        if let Some(l) = Self::apostrophe(trimmed) {
            return Some(l);
        }
        if let Some(l) = Self::question(trimmed) {
            return Some(l);
        }
        if let Some(l) = Self::equals(trimmed) {
            return Some(l);
        }
        Self::number(trimmed)
    }

    /// The number matcher: the longest digit prefix, parsed as an `i32`.
    /// No match without a leading digit, and none when the value would
    /// overflow.
    pub fn number(code: &str) -> (r: Option<Lexed>)
        ensures
            lexed_matches(r, number_match(code@)),
    {
        let len = code.unicode_len();
        let mut i: usize = 0;
        while i < len
            invariant
                i <= len,
                code@.len() == len as nat,
                forall|k: int| 0 <= k < i ==> is_digit(code@[k]),
            ensures
                i <= len,
                code@.len() == len as nat,
                forall|k: int| 0 <= k < i ==> is_digit(code@[k]),
                i == len || !is_digit(code@[i as int]),
            decreases len - i,
        {
            let c = code.get_char(i);
            if !is_digit_char(c) {
                break;
            }
            i += 1;
        }
        proof {
            lemma_digit_run_len_is(code@, i as int);
        }
        if i == 0 {
            return None;
        }
        let mut acc: u64 = 0;
        let mut j: usize = 0;
        while j < i
            invariant
                0 < i <= len,
                code@.len() == len as nat,
                j <= i,
                forall|k: int| 0 <= k < i ==> is_digit(code@[k]),
                digit_run_len(code@) == i as int,
                acc as int == digits_value(code@.take(j as int)),
                acc <= 0x7FFF_FFFF,
            decreases i - j,
        {
            let c = code.get_char(j);
            let d = (c as u32) - 0x30;
            proof {
                lemma_digits_value_snoc(code@, j as int);
            }
            acc = acc * 10 + (d as u64);
            if acc > 0x7FFF_FFFF {
                proof {
                    assert(code@.take(i as int).take(j as int + 1) =~= code@.take(j as int + 1));
                    lemma_digits_value_mono(code@.take(i as int), j as int + 1);
                }
                return None;
            }
            j += 1;
        }
        let rest = code.substring_char(i, len);
        Some(Lexed::new(Token::Number(acc as i32), rest))
    }

    pub fn l_paren(code: &str) -> (r: Option<Lexed>)
        ensures
            lexed_matches(r, char_match(code@, '(', Token::LParen)),
    {
        Self::char(code, '(', Token::LParen)
    }

    pub fn r_paren(code: &str) -> (r: Option<Lexed>)
        ensures
            lexed_matches(r, char_match(code@, ')', Token::RParen)),
    {
        Self::char(code, ')', Token::RParen)
    }

    pub fn l_brace(code: &str) -> (r: Option<Lexed>)
        ensures
            lexed_matches(r, char_match(code@, '[', Token::LBrace)),
    {
        Self::char(code, '[', Token::LBrace)
    }

    pub fn r_brace(code: &str) -> (r: Option<Lexed>)
        ensures
            lexed_matches(r, char_match(code@, ']', Token::RBrace)),
    {
        Self::char(code, ']', Token::RBrace)
    }

    pub fn l_angle_bracket(code: &str) -> (r: Option<Lexed>)
        ensures
            lexed_matches(r, char_match(code@, '<', Token::LAngleBracket)),
    {
        Self::char(code, '<', Token::LAngleBracket)
    }

    pub fn r_angle_bracket(code: &str) -> (r: Option<Lexed>)
        ensures
            lexed_matches(r, char_match(code@, '>', Token::RAngleBracket)),
    {
        Self::char(code, '>', Token::RAngleBracket)
    }

    pub fn plus(code: &str) -> (r: Option<Lexed>)
        ensures
            lexed_matches(r, char_match(code@, '+', Token::Plus)),
    {
        Self::char(code, '+', Token::Plus)
    }

    pub fn minus(code: &str) -> (r: Option<Lexed>)
        ensures
            lexed_matches(r, char_match(code@, '-', Token::Minus)),
    {
        Self::char(code, '-', Token::Minus)
    }

    pub fn asterisk(code: &str) -> (r: Option<Lexed>)
        ensures
            lexed_matches(r, char_match(code@, '*', Token::Asterisk)),
    {
        Self::char(code, '*', Token::Asterisk)
    }

    pub fn slash(code: &str) -> (r: Option<Lexed>)
        ensures
            lexed_matches(r, char_match(code@, '/', Token::Slash)),
    {
        Self::char(code, '/', Token::Slash)
    }

    pub fn ban(code: &str) -> (r: Option<Lexed>)
        ensures
            lexed_matches(r, char_match(code@, '!', Token::Ban)),
    {
        Self::char(code, '!', Token::Ban)
    }

    pub fn underbar(code: &str) -> (r: Option<Lexed>)
        ensures
            lexed_matches(r, char_match(code@, '_', Token::Underbar)),
    {
        Self::char(code, '_', Token::Underbar)
    }

    pub fn apostrophe(code: &str) -> (r: Option<Lexed>)
        ensures
            lexed_matches(r, char_match(code@, '\'', Token::Apostrophe)),
    {
        Self::char(code, '\'', Token::Apostrophe)
    }

    pub fn question(code: &str) -> (r: Option<Lexed>)
        ensures
            lexed_matches(r, char_match(code@, '?', Token::Question)),
    {
        Self::char(code, '?', Token::Question)
    }

    pub fn equals(code: &str) -> (r: Option<Lexed>)
        ensures
            lexed_matches(r, char_match(code@, '=', Token::Equals)),
    {
        Self::char(code, '=', Token::Equals)
    }

    /// The shared single-character matcher: a match iff the input starts
    /// with `target`, consuming exactly that one character.
    pub fn char(code: &str, target: char, token: Token) -> (r: Option<Lexed>)
        ensures
            lexed_matches(r, char_match(code@, target, token)),
    {
        let len = code.unicode_len();
        if len > 0 {
            let c = code.get_char(0);
            if c == target {
                let rest = code.substring_char(1, len);
                return Some(Lexed::new(token, rest));
            }
        }
        None
    }

    /// Yield the lookahead token and refill it with one scan step. After
    /// a failed step the scanner permanently yields `None`.
    pub fn next(&mut self) -> (token: Option<Token>)
        requires
            old(self).wf(),
        ensures
            final(self).wf(),
            old(self).remaining().len() > 0 ==> token == Some(old(self).remaining()[0]),
            old(self).remaining().len() > 0 ==> final(self).remaining() == old(
                self,
            ).remaining().drop_first(),
            old(self).remaining().len() == 0 ==> token is None,
            old(self).remaining().len() == 0 ==> final(self).remaining() == Seq::<Token>::empty(),
    {
        let token = self.current;
        if let Some(lexed) = Self::lex(self.code) {
            proof {
                if old(self).current is Some {
                    let t = old(self).current->Some_0;
                    assert((seq![t] + tokens_of(old(self).code@)).drop_first() =~= tokens_of(
                        old(self).code@,
                    ));
                }
            }
            self.current = Some(lexed.token);
            self.code = lexed.rest;
        } else {
            proof {
                reveal_strlit("");
                if old(self).current is Some {
                    let t = old(self).current->Some_0;
                    assert((seq![t] + tokens_of(old(self).code@)).drop_first() =~= Seq::<
                        Token,
                    >::empty());
                }
            }
            self.current = None;
            self.code = "";
        }
        token
    }

    /// A read-only view of the lookahead: the token `next` would yield,
    /// with nothing advanced.
    pub fn peek(&self) -> (token: Option<Token>)
        ensures
            self.remaining().len() > 0 ==> token == Some(self.remaining()[0]),
            self.remaining().len() == 0 ==> token is None,
    {
        self.current
    }
}

} // verus!
