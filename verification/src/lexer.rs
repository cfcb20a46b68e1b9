//! The tokenizer: a cursor over the bytes of a source text that hands out one
//! token at a time.
//!
//! The model is [`lexeme_at`]: for a byte sequence and a position, the token
//! that starts at or after that position and the position after it.
//! [`tokens_from`] is the sequence of tokens up to the end of the input.

use crate::text::{
    all_ascii, ascii_part, ascii_text, decimal_value, is_digit, lemma_decimal_value_push,
    same_text,
};
use crate::token::{SpecToken, Token};
use vstd::prelude::*;
use vstd::string::StringSliceAdditionalSpecFns;

verus! {

/// Whether `b` may stand in an identifier or a keyword: an ASCII letter or an
/// underscore.
pub open spec fn is_letter(b: u8) -> bool {
    ('a' as u8 <= b && b <= 'z' as u8) || ('A' as u8 <= b && b <= 'Z' as u8) || b == '_' as u8
}

/// Whether `b` separates tokens without being one: a space, a tab or a line
/// feed.
pub open spec fn is_blank(b: u8) -> bool {
    b == ' ' as u8 || b == '\t' as u8 || b == '\n' as u8
}

/// The first position at or after `pos` that holds no blank.
pub open spec fn skip_blanks(bytes: Seq<u8>, pos: nat) -> nat
    decreases bytes.len() - pos,
{
    if pos < bytes.len() && is_blank(bytes[pos as int]) {
        skip_blanks(bytes, pos + 1)
    } else {
        pos
    }
}

/// The first position at or after `pos` that holds no letter.
pub open spec fn letters_end(bytes: Seq<u8>, pos: nat) -> nat
    decreases bytes.len() - pos,
{
    if pos < bytes.len() && is_letter(bytes[pos as int]) {
        letters_end(bytes, pos + 1)
    } else {
        pos
    }
}

/// The first position at or after `pos` that holds no digit.
pub open spec fn digits_end(bytes: Seq<u8>, pos: nat) -> nat
    decreases bytes.len() - pos,
{
    if pos < bytes.len() && is_digit(bytes[pos as int]) {
        digits_end(bytes, pos + 1)
    } else {
        pos
    }
}

/// The keyword that `text` spells, if it spells one.
pub open spec fn keyword(text: Seq<char>) -> Option<SpecToken> {
    if text == "fn"@ {
        Some(SpecToken::FUNCTION)
    } else if text == "let"@ {
        Some(SpecToken::LET)
    } else if text == "true"@ {
        Some(SpecToken::BOOL(true))
    } else if text == "false"@ {
        Some(SpecToken::BOOL(false))
    } else if text == "if"@ {
        Some(SpecToken::IF)
    } else if text == "else"@ {
        Some(SpecToken::ELSE)
    } else if text == "return"@ {
        Some(SpecToken::RETURN)
    } else {
        None
    }
}

/// The token of a run of letters: its keyword, or else an identifier.
pub open spec fn word_token(text: Seq<char>) -> SpecToken {
    match keyword(text) {
        Some(token) => token,
        None => SpecToken::IDENT(text),
    }
}

/// The token of a run of digits: its value, or `ILLEGAL` where the value does
/// not fit in 64 signed bits.
pub open spec fn number_token(digits: Seq<u8>) -> SpecToken {
    if decimal_value(digits) <= i64::MAX {
        SpecToken::INT(decimal_value(digits) as i64)
    } else {
        SpecToken::ILLEGAL
    }
}

/// The token of a single byte that is neither letter nor digit: an operator
/// or a punctuation mark, or `ILLEGAL` for any other byte.
pub open spec fn symbol_token(b: u8) -> SpecToken {
    if b == '=' as u8 {
        SpecToken::ASSIGN
    } else if b == ';' as u8 {
        SpecToken::SEMICOLON
    } else if b == '(' as u8 {
        SpecToken::LPAREN
    } else if b == ')' as u8 {
        SpecToken::RPAREN
    } else if b == ',' as u8 {
        SpecToken::COMMA
    } else if b == '+' as u8 {
        SpecToken::PLUS
    } else if b == '-' as u8 {
        SpecToken::MINUS
    } else if b == '!' as u8 {
        SpecToken::BANG
    } else if b == '/' as u8 {
        SpecToken::SLASH
    } else if b == '*' as u8 {
        SpecToken::ASTERISK
    } else if b == '<' as u8 {
        SpecToken::LT
    } else if b == '>' as u8 {
        SpecToken::GT
    } else if b == '{' as u8 {
        SpecToken::LBRACE
    } else if b == '}' as u8 {
        SpecToken::RBRACE
    } else {
        SpecToken::ILLEGAL
    }
}

/// A token and the position after it.
pub struct Lexeme {
    pub token: SpecToken,
    pub end: nat,
}

/// The token that starts at the first position at or after `pos` that holds
/// no blank, and the position after it; `EOF` where only blanks are left.
///
/// `==` and `!=` are taken as one token each. A run of letters is taken whole
/// as a keyword or identifier, a run of digits whole as a number.
pub open spec fn lexeme_at(bytes: Seq<u8>, pos: nat) -> Lexeme {
    let start = skip_blanks(bytes, pos);
    if start >= bytes.len() {
        Lexeme { token: SpecToken::EOF, end: start }
    } else {
        let b = bytes[start as int];
        let equals_follows = start + 1 < bytes.len() && bytes[start + 1 as int] == '=' as u8;
        if b == '=' as u8 && equals_follows {
            Lexeme { token: SpecToken::EQ, end: start + 2 }
        } else if b == '!' as u8 && equals_follows {
            Lexeme { token: SpecToken::NotEq, end: start + 2 }
        } else if is_letter(b) {
            let end = letters_end(bytes, start);
            Lexeme { token: word_token(ascii_text(bytes.subrange(start as int, end as int))), end }
        } else if is_digit(b) {
            let end = digits_end(bytes, start);
            Lexeme { token: number_token(bytes.subrange(start as int, end as int)), end }
        } else {
            Lexeme { token: symbol_token(b), end: start + 1 }
        }
    }
}

/// The tokens from `pos` to the end of the input, without the closing `EOF`.
pub open spec fn tokens_from(bytes: Seq<u8>, pos: nat) -> Seq<SpecToken>
    decreases bytes.len() - pos,
    via tokens_from_decreases
{
    let lexeme = lexeme_at(bytes, pos);
    if lexeme.token == SpecToken::EOF {
        Seq::empty()
    } else {
        seq![lexeme.token] + tokens_from(bytes, lexeme.end)
    }
}

#[via_fn]
proof fn tokens_from_decreases(bytes: Seq<u8>, pos: nat) {
    lemma_lexeme_bounds(bytes, pos);
}

/// Skipping blanks moves forward, stays within the input, passes blanks only
/// and stops at the first byte that is none.
pub proof fn lemma_skip_blanks(bytes: Seq<u8>, pos: nat)
    ensures
        pos <= skip_blanks(bytes, pos),
        pos <= bytes.len() ==> skip_blanks(bytes, pos) <= bytes.len(),
        forall|k: int| pos <= k < skip_blanks(bytes, pos) ==> is_blank(#[trigger] bytes[k]),
        skip_blanks(bytes, pos) < bytes.len() ==> !is_blank(
            bytes[skip_blanks(bytes, pos) as int],
        ),
    decreases bytes.len() - pos,
{
    if pos < bytes.len() && is_blank(bytes[pos as int]) {
        lemma_skip_blanks(bytes, pos + 1);
    }
}

/// A run of letters ends within the input, holds letters only and is not
/// followed by a letter.
pub proof fn lemma_letters_end(bytes: Seq<u8>, pos: nat)
    ensures
        pos <= letters_end(bytes, pos),
        pos <= bytes.len() ==> letters_end(bytes, pos) <= bytes.len(),
        forall|k: int| pos <= k < letters_end(bytes, pos) ==> is_letter(#[trigger] bytes[k]),
        letters_end(bytes, pos) < bytes.len() ==> !is_letter(
            bytes[letters_end(bytes, pos) as int],
        ),
    decreases bytes.len() - pos,
{
    if pos < bytes.len() && is_letter(bytes[pos as int]) {
        lemma_letters_end(bytes, pos + 1);
    }
}

/// A run of digits ends within the input, holds digits only and is not
/// followed by a digit.
pub proof fn lemma_digits_end(bytes: Seq<u8>, pos: nat)
    ensures
        pos <= digits_end(bytes, pos),
        pos <= bytes.len() ==> digits_end(bytes, pos) <= bytes.len(),
        forall|k: int| pos <= k < digits_end(bytes, pos) ==> is_digit(#[trigger] bytes[k]),
        digits_end(bytes, pos) < bytes.len() ==> !is_digit(bytes[digits_end(bytes, pos) as int]),
    decreases bytes.len() - pos,
{
    if pos < bytes.len() && is_digit(bytes[pos as int]) {
        lemma_digits_end(bytes, pos + 1);
    }
}

/// Every token but `EOF` takes at least one byte and ends within the input;
/// `EOF` comes exactly where only blanks are left, and takes them.
pub proof fn lemma_lexeme_bounds(bytes: Seq<u8>, pos: nat)
    ensures
        lexeme_at(bytes, pos).token != SpecToken::EOF ==> pos < lexeme_at(bytes, pos).end
            <= bytes.len(),
        lexeme_at(bytes, pos).token == SpecToken::EOF <==> skip_blanks(bytes, pos) >= bytes.len(),
        lexeme_at(bytes, pos).token == SpecToken::EOF ==> lexeme_at(bytes, pos).end == skip_blanks(
            bytes,
            pos,
        ),
{
    let start = skip_blanks(bytes, pos);
    lemma_skip_blanks(bytes, pos);
    if start < bytes.len() {
        lemma_letters_end(bytes, start);
        lemma_digits_end(bytes, start);
        lemma_letters_end(bytes, start + 1);
        lemma_digits_end(bytes, start + 1);
    }
}

/// Once the end of the input is reached, every further token is `EOF` and the
/// position stays.
pub proof fn lemma_eof_repeats(bytes: Seq<u8>, pos: nat)
    requires
        lexeme_at(bytes, pos).token == SpecToken::EOF,
    ensures
        lexeme_at(bytes, lexeme_at(bytes, pos).end) == lexeme_at(bytes, pos),
        tokens_from(bytes, pos) == Seq::<SpecToken>::empty(),
        tokens_from(bytes, lexeme_at(bytes, pos).end) == Seq::<SpecToken>::empty(),
{
    lemma_lexeme_bounds(bytes, pos);
}

/// There are no more tokens from a position than bytes.
pub proof fn lemma_token_count(bytes: Seq<u8>, pos: nat)
    requires
        pos <= bytes.len(),
    ensures
        tokens_from(bytes, pos).len() <= bytes.len() - pos,
    decreases bytes.len() - pos,
{
    lemma_lexeme_bounds(bytes, pos);
    let lexeme = lexeme_at(bytes, pos);
    if lexeme.token != SpecToken::EOF {
        lemma_token_count(bytes, lexeme.end);
    }
}

/// Two bytes that write `==` or `!=` are one token, not two.
pub proof fn lemma_longest_operator(bytes: Seq<u8>, pos: nat)
    requires
        skip_blanks(bytes, pos) + 1 < bytes.len(),
        bytes[skip_blanks(bytes, pos) + 1 as int] == '=' as u8,
    ensures
        bytes[skip_blanks(bytes, pos) as int] == '=' as u8 ==> lexeme_at(bytes, pos) == (Lexeme {
            token: SpecToken::EQ,
            end: skip_blanks(bytes, pos) + 2,
        }),
        bytes[skip_blanks(bytes, pos) as int] == '!' as u8 ==> lexeme_at(bytes, pos) == (Lexeme {
            token: SpecToken::NotEq,
            end: skip_blanks(bytes, pos) + 2,
        }),
{
}

/// `EOF` closes the tokens of an input and is none of them.
pub proof fn lemma_tokens_hold_no_eof(bytes: Seq<u8>, pos: nat)
    ensures
        forall|k: int|
            0 <= k < tokens_from(bytes, pos).len() ==> #[trigger] tokens_from(bytes, pos)[k]
                != SpecToken::EOF,
    decreases bytes.len() - pos,
{
    lemma_lexeme_bounds(bytes, pos);
    let lexeme = lexeme_at(bytes, pos);
    if lexeme.token != SpecToken::EOF {
        lemma_tokens_hold_no_eof(bytes, lexeme.end);
    }
}

/// Whether `b` is an ASCII letter or an underscore.
fn letter(b: u8) -> (yes: bool)
    ensures
        yes == is_letter(b),
{
    ('a' as u8 <= b && b <= 'z' as u8) || ('A' as u8 <= b && b <= 'Z' as u8) || b == '_' as u8
}

/// Whether `b` is an ASCII digit.
fn digit(b: u8) -> (yes: bool)
    ensures
        yes == is_digit(b),
{
    '0' as u8 <= b && b <= '9' as u8
}

/// Whether `b` is a space, a tab or a line feed.
fn blank(b: u8) -> (yes: bool)
    ensures
        yes == is_blank(b),
{
    b == ' ' as u8 || b == '\t' as u8 || b == '\n' as u8
}

/// The token of a single byte that is neither letter nor digit.
fn symbol(b: u8) -> (token: Token)
    ensures
        token@ == symbol_token(b),
{
    if b == '=' as u8 {
        Token::ASSIGN
    } else if b == ';' as u8 {
        Token::SEMICOLON
    } else if b == '(' as u8 {
        Token::LPAREN
    } else if b == ')' as u8 {
        Token::RPAREN
    } else if b == ',' as u8 {
        Token::COMMA
    } else if b == '+' as u8 {
        Token::PLUS
    } else if b == '-' as u8 {
        Token::MINUS
    } else if b == '!' as u8 {
        Token::BANG
    } else if b == '/' as u8 {
        Token::SLASH
    } else if b == '*' as u8 {
        Token::ASTERISK
    } else if b == '<' as u8 {
        Token::LT
    } else if b == '>' as u8 {
        Token::GT
    } else if b == '{' as u8 {
        Token::LBRACE
    } else if b == '}' as u8 {
        Token::RBRACE
    } else {
        Token::ILLEGAL
    }
}

/// The token of a run of letters: its keyword, or else an identifier.
fn word(text: &str) -> (token: Token)
    ensures
        token@ == word_token(text@),
{
    if same_text(text, "fn") {
        Token::FUNCTION
    } else if same_text(text, "let") {
        Token::LET
    } else if same_text(text, "true") {
        Token::BOOL(true)
    } else if same_text(text, "false") {
        Token::BOOL(false)
    } else if same_text(text, "if") {
        Token::IF
    } else if same_text(text, "else") {
        Token::ELSE
    } else if same_text(text, "return") {
        Token::RETURN
    } else {
        Token::IDENT(text.to_owned())
    }
}

/// A cursor over the bytes of a source text.
pub struct Lexer<'a> {
    input: &'a str,
    position: usize,
}

impl<'a> Lexer<'a> {
    /// The bytes of the source text.
    pub closed spec fn bytes(&self) -> Seq<u8> {
        self.input.spec_bytes()
    }

    /// The number of bytes that the cursor has passed.
    pub closed spec fn position(&self) -> nat {
        self.position as nat
    }

    /// The tokens that are still to come, without the closing `EOF`.
    pub open spec fn remaining(&self) -> Seq<SpecToken> {
        tokens_from(self.bytes(), self.position())
    }

    /// A cursor at the start of `input`.
    pub fn new(input: &'a str) -> (lexer: Lexer<'a>)
        ensures
            lexer.bytes() == input.spec_bytes(),
            lexer.position() == 0,
    {
        Lexer { input, position: 0 }
    }

    /// Takes the next token from the input and moves the cursor after it.
    /// At the end of the input the token is `EOF`, on every call.
    pub fn next_token(&mut self) -> (token: Token)
        ensures
            final(self).bytes() == old(self).bytes(),
            token@ == lexeme_at(old(self).bytes(), old(self).position()).token,
            final(self).position() == lexeme_at(old(self).bytes(), old(self).position()).end,
    {
        self.skip_whitespace();
        let bytes = self.input.as_bytes();
        if self.position >= bytes.len() {
            return Token::EOF;
        }
        let ch = bytes[self.position];
        if letter(ch) {
            return self.read_identifier();
        }
        if digit(ch) {
            return self.read_number();
        }
        let token = if ch == '=' as u8 && self.peek_char() == '=' as u8 {
            self.read_char();
            Token::EQ
        } else if ch == '!' as u8 && self.peek_char() == '=' as u8 {
            self.read_char();
            Token::NotEq
        } else {
            symbol(ch)
        };
        self.read_char();
        token
    }

    /// Moves the cursor one byte forward, unless it is at the end.
    pub fn read_char(&mut self)
        ensures
            final(self).bytes() == old(self).bytes(),
            final(self).position() == if old(self).position() < old(self).bytes().len() {
                old(self).position() + 1
            } else {
                old(self).position()
            },
    {
        if self.position < self.input.as_bytes().len() {
            self.position += 1;
        }
    }

    /// The byte after the one at the cursor, or 0 where there is none.
    fn peek_char(&self) -> (b: u8)
        ensures
            b == if self.position() + 1 < self.bytes().len() {
                self.bytes()[self.position() + 1 as int]
            } else {
                0u8
            },
    {
        let bytes = self.input.as_bytes();
        if self.position < bytes.len() && self.position + 1 < bytes.len() {
            bytes[self.position + 1]
        } else {
            0
        }
    }

    /// Takes the run of letters at the cursor as a keyword or an identifier.
    fn read_identifier(&mut self) -> (token: Token)
        requires
            old(self).position() < old(self).bytes().len(),
            is_letter(old(self).bytes()[old(self).position() as int]),
        ensures
            final(self).bytes() == old(self).bytes(),
            final(self).position() == letters_end(old(self).bytes(), old(self).position()),
            token@ == word_token(
                ascii_text(
                    old(self).bytes().subrange(
                        old(self).position() as int,
                        letters_end(old(self).bytes(), old(self).position()) as int,
                    ),
                ),
            ),
    {
        let input = self.input;
        let bytes = input.as_bytes();
        let start = self.position;
        while self.position < bytes.len() && letter(bytes[self.position])
            invariant
                self.bytes() == bytes@,
                bytes@ == input.spec_bytes(),
                start <= self.position <= bytes.len(),
                letters_end(bytes@, self.position as nat) == letters_end(bytes@, start as nat),
                forall|k: int| start <= k < self.position ==> is_letter(#[trigger] bytes@[k]),
            decreases bytes.len() - self.position,
        {
            self.read_char();
        }
        assert(all_ascii(bytes@.subrange(start as int, self.position as int)));
        word(ascii_part(input, start, self.position))
    }

    /// Takes the run of digits at the cursor as a number.
    fn read_number(&mut self) -> (token: Token)
        requires
            old(self).position() < old(self).bytes().len(),
            is_digit(old(self).bytes()[old(self).position() as int]),
        ensures
            final(self).bytes() == old(self).bytes(),
            final(self).position() == digits_end(old(self).bytes(), old(self).position()),
            token@ == number_token(
                old(self).bytes().subrange(
                    old(self).position() as int,
                    digits_end(old(self).bytes(), old(self).position()) as int,
                ),
            ),
    {
        let input = self.input;
        let bytes = input.as_bytes();
        let start = self.position;
        let mut value: i64 = 0;
        let mut fits = true;
        while self.position < bytes.len() && digit(bytes[self.position])
            invariant
                self.bytes() == bytes@,
                bytes@ == input.spec_bytes(),
                start <= self.position <= bytes.len(),
                digits_end(bytes@, self.position as nat) == digits_end(bytes@, start as nat),
                0 <= value,
                fits ==> value == decimal_value(
                    bytes@.subrange(start as int, self.position as int),
                ),
                !fits ==> decimal_value(bytes@.subrange(start as int, self.position as int))
                    > i64::MAX,
            decreases bytes.len() - self.position,
        {
            let d = (bytes[self.position] - '0' as u8) as i64;
            proof {
                let run = bytes@.subrange(start as int, self.position as int);
                lemma_decimal_value_push(run, bytes@[self.position as int]);
                assert(run.push(bytes@[self.position as int]) =~= bytes@.subrange(
                    start as int,
                    self.position + 1,
                ));
            }
            if fits {
                if value > (i64::MAX - d) / 10 {
                    fits = false;
                } else {
                    value = value * 10 + d;
                }
            }
            self.read_char();
        }
        if fits {
            Token::INT(value)
        } else {
            Token::ILLEGAL
        }
    }

    /// Moves the cursor over blanks to the next byte that is none.
    fn skip_whitespace(&mut self)
        ensures
            final(self).bytes() == old(self).bytes(),
            final(self).position() == skip_blanks(old(self).bytes(), old(self).position()),
    {
        let bytes = self.input.as_bytes();
        while self.position < bytes.len() && blank(bytes[self.position])
            invariant
                self.bytes() == old(self).bytes(),
                bytes@ == self.bytes(),
                skip_blanks(bytes@, self.position as nat) == skip_blanks(
                    bytes@,
                    old(self).position as nat,
                ),
            decreases bytes.len() - self.position,
        {
            self.read_char();
        }
    }
}

} // verus!
