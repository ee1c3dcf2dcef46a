//! The lexer: from source text to tokens.
//!
//! The source is read as bytes. Blanks and comments separate tokens and are
//! dropped. A word is a longest run of letters, digits and underscores, and
//! is a token only as a whole. Text that is no token becomes an invalid
//! token, which the code generator reports where it meets it.

use crate::hex::{hex_digit, hex_digits, hex_value};
use crate::opcode::{PUSH_CHAR, PUSH_HEX, PUSH_STRING};
use crate::token::{token_views, BinaryOp, SpecToken, Target, Token, UnaryOp};
use vstd::prelude::*;
use vstd::string::StringSliceAdditionalSpecFns;

verus! {

/// The byte that starts a hexadecimal literal in the source: `$`.
pub const DOLLAR: u8 = 0x24;

/// The byte that ends a line.
pub const NEWLINE: u8 = 0x0a;

/// Whether `byte` is a blank: a space, a tab, a line feed or a form feed.
pub open spec fn is_blank(byte: u8) -> bool {
    byte == 0x20 || byte == 0x09 || byte == 0x0a || byte == 0x0c
}

/// Whether `byte` is a decimal digit.
pub open spec fn is_digit(byte: u8) -> bool {
    0x30 <= byte <= 0x39
}

/// Whether `byte` can stand in a word: a letter, a digit or an underscore.
pub open spec fn is_word_byte(byte: u8) -> bool {
    is_digit(byte) || 0x41 <= byte <= 0x5a || 0x61 <= byte <= 0x7a || byte == 0x5f
}

/// Where the run of blanks that holds `from` ends.
pub open spec fn blank_end(src: Seq<u8>, from: int) -> int
    decreases src.len() - from,
{
    if 0 <= from < src.len() && is_blank(src[from]) {
        blank_end(src, from + 1)
    } else {
        from
    }
}

/// Where the word that holds `from` ends.
pub open spec fn word_end(src: Seq<u8>, from: int) -> int
    decreases src.len() - from,
{
    if 0 <= from < src.len() && is_word_byte(src[from]) {
        word_end(src, from + 1)
    } else {
        from
    }
}

/// The index of the first line feed at or after `from`, or the length of the
/// source.
pub open spec fn line_end(src: Seq<u8>, from: int) -> int
    decreases src.len() - from,
{
    if 0 <= from < src.len() && src[from] != NEWLINE {
        line_end(src, from + 1)
    } else {
        from
    }
}

/// The index of the first `"` at or after `from`, or the length of the
/// source.
pub open spec fn quote_end(src: Seq<u8>, from: int) -> int
    decreases src.len() - from,
{
    if 0 <= from < src.len() && src[from] != PUSH_STRING {
        quote_end(src, from + 1)
    } else {
        from
    }
}

/// The literal that pushes `value`: `#` and two lower-case hexadecimal
/// digits.
pub open spec fn byte_literal(value: u8) -> Seq<u8> {
    seq![PUSH_HEX, hex_digit((value / 16) as u8), hex_digit((value % 16) as u8)]
}

/// One for the digit `1`, zero for any other byte.
pub open spec fn bit(byte: u8) -> nat {
    if byte == 0x31 {
        1
    } else {
        0
    }
}

/// Whether `word` is a binary literal: `b` and eight binary digits.
pub open spec fn is_binary_literal(word: Seq<u8>) -> bool {
    &&& word.len() == 9
    &&& word[0] == 0x62
    &&& forall|k: int| 1 <= k < 9 ==> word[k] == 0x30 || word[k] == 0x31
}

/// The number that the binary literal `word` spells, high bit first.
pub open spec fn binary_value(word: Seq<u8>) -> nat
    recommends
        is_binary_literal(word),
{
    128 * bit(word[1]) + 64 * bit(word[2]) + 32 * bit(word[3]) + 16 * bit(word[4]) + 8 * bit(
        word[5],
    ) + 4 * bit(word[6]) + 2 * bit(word[7]) + bit(word[8])
}

/// The mnemonic that `word` spells, if it spells one.
pub open spec fn mnemonic(word: Seq<u8>) -> Option<SpecToken> {
    if word == "add".spec_bytes() {
        Some(SpecToken::Binary(BinaryOp::Add))
    } else if word == "sub".spec_bytes() {
        Some(SpecToken::Binary(BinaryOp::Subtract))
    } else if word == "mul".spec_bytes() {
        Some(SpecToken::Binary(BinaryOp::Multiply))
    } else if word == "div".spec_bytes() {
        Some(SpecToken::Binary(BinaryOp::Divide))
    } else if word == "mod".spec_bytes() {
        Some(SpecToken::Binary(BinaryOp::Modulo))
    } else if word == "and".spec_bytes() {
        Some(SpecToken::Binary(BinaryOp::And))
    } else if word == "or".spec_bytes() {
        Some(SpecToken::Binary(BinaryOp::Or))
    } else if word == "xor".spec_bytes() {
        Some(SpecToken::Binary(BinaryOp::Xor))
    } else if word == "eq".spec_bytes() {
        Some(SpecToken::Binary(BinaryOp::Equal))
    } else if word == "lt".spec_bytes() {
        Some(SpecToken::Binary(BinaryOp::Less))
    } else if word == "gt".spec_bytes() {
        Some(SpecToken::Binary(BinaryOp::Greater))
    } else if word == "neg".spec_bytes() || word == "inv".spec_bytes() {
        Some(SpecToken::Unary(UnaryOp::Complement))
    } else if word == "not".spec_bytes() {
        Some(SpecToken::Unary(UnaryOp::Not))
    } else if word == "dup".spec_bytes() {
        Some(SpecToken::Unary(UnaryOp::Duplicate))
    } else if word == "drop".spec_bytes() {
        Some(SpecToken::Unary(UnaryOp::Drop))
    } else if word == "jz".spec_bytes() {
        Some(SpecToken::Unary(UnaryOp::Conditional))
    } else if word == "out".spec_bytes() || word == "pri".spec_bytes() {
        Some(SpecToken::Unary(UnaryOp::Print))
    } else if word == "st".spec_bytes() {
        Some(SpecToken::Unary(UnaryOp::Store))
    } else if word == "while".spec_bytes() || word == "loop".spec_bytes() {
        Some(SpecToken::LoopStart)
    } else if word == "cont".spec_bytes() || word == "next".spec_bytes() {
        Some(SpecToken::LoopContinue)
    } else if word == "nonzero".spec_bytes() {
        Some(SpecToken::ConditionNonZero)
    } else if word == "zero".spec_bytes() {
        Some(SpecToken::ConditionZero)
    } else if word == "swap".spec_bytes() {
        Some(SpecToken::Swap)
    } else if word == "values".spec_bytes() {
        Some(SpecToken::SwapValues)
    } else if word == "stacks".spec_bytes() {
        Some(SpecToken::SwapStacks)
    } else if word == "jmp".spec_bytes() {
        Some(SpecToken::Jump)
    } else if word == "push".spec_bytes() {
        Some(SpecToken::Push)
    } else if word == "in".spec_bytes() || word == "get".spec_bytes() {
        Some(SpecToken::Input)
    } else if word == "ld".spec_bytes() {
        Some(SpecToken::LoadFromCell)
    } else if word == "p1".spec_bytes() {
        Some(SpecToken::Target(Target::P1))
    } else if word == "p2".spec_bytes() {
        Some(SpecToken::Target(Target::P2))
    } else if word == "s1".spec_bytes() {
        Some(SpecToken::Target(Target::S1))
    } else if word == "s2".spec_bytes() {
        Some(SpecToken::Target(Target::S2))
    } else if word == "embed".spec_bytes() {
        Some(SpecToken::EmbeddedCode)
    } else {
        None
    }
}

/// The token that the word `word` is: a mnemonic, one of the digits `1` to
/// `9`, a binary literal, or an invalid token.
pub open spec fn word_token(word: Seq<u8>) -> SpecToken {
    match mnemonic(word) {
        Some(token) => token,
        None => if word.len() == 1 && 0x31 <= word[0] <= 0x39 {
            SpecToken::JumpDistance((word[0] - 0x30) as u8)
        } else if is_binary_literal(word) {
            SpecToken::Literal(byte_literal(binary_value(word) as u8))
        } else {
            SpecToken::Invalid(word)
        },
    }
}

/// The token that starts with the `#` at `at` and a digit, and where it
/// ends. The longest of three, two or one digits is taken that spells a
/// number without a leading zero and below 300; a number above 255 is an
/// invalid token.
pub open spec fn decimal_token(src: Seq<u8>, at: int) -> (SpecToken, int)
    recommends
        0 <= at,
        at + 1 < src.len(),
        is_digit(src[at + 1]),
{
    let first = (src[at + 1] - 0x30) as int;
    if 1 <= first <= 2 && at + 3 < src.len() && is_digit(src[at + 2]) && is_digit(src[at + 3]) {
        let value = 100 * first + 10 * (src[at + 2] - 0x30) + (src[at + 3] - 0x30);
        if value <= 255 {
            (SpecToken::Literal(byte_literal(value as u8)), at + 4)
        } else {
            (SpecToken::Invalid(src.subrange(at, at + 4)), at + 4)
        }
    } else if 1 <= first && at + 2 < src.len() && is_digit(src[at + 2]) {
        let value = 10 * first + (src[at + 2] - 0x30);
        (SpecToken::Literal(byte_literal(value as u8)), at + 3)
    } else {
        (SpecToken::Literal(byte_literal(first as u8)), at + 2)
    }
}

/// What starts at `at`: a token or nothing, and where it ends.
pub open spec fn lexeme(src: Seq<u8>, at: int) -> (Option<SpecToken>, int)
    recommends
        0 <= at < src.len(),
{
    let byte = src[at];
    if is_blank(byte) {
        (None, blank_end(src, at))
    } else if byte == PUSH_HEX {
        if at + 1 < src.len() && is_digit(src[at + 1]) {
            (Some(decimal_token(src, at).0), decimal_token(src, at).1)
        } else {
            (None, line_end(src, at))
        }
    } else if byte == DOLLAR {
        if at + 2 < src.len() && hex_value(src[at + 1]) is Some && hex_value(src[at + 2])
            is Some {
            (Some(SpecToken::Literal(seq![PUSH_HEX, src[at + 1], src[at + 2]])), at + 3)
        } else {
            (Some(SpecToken::Invalid(seq![byte])), at + 1)
        }
    } else if byte == PUSH_CHAR {
        if at + 2 < src.len() && src[at + 1] != NEWLINE && src[at + 2] == PUSH_CHAR {
            (Some(SpecToken::Literal(seq![PUSH_CHAR, src[at + 1]])), at + 3)
        } else {
            (Some(SpecToken::Invalid(seq![byte])), at + 1)
        }
    } else if byte == PUSH_STRING {
        let end = quote_end(src, at + 1);
        if end < src.len() {
            (Some(SpecToken::StringLiteral(src.subrange(at + 1, end))), end + 1)
        } else {
            (Some(SpecToken::Invalid(src.subrange(at, src.len() as int))), src.len() as int)
        }
    } else if is_word_byte(byte) {
        let end = word_end(src, at);
        (Some(word_token(src.subrange(at, end))), end)
    } else {
        (Some(SpecToken::Invalid(seq![byte])), at + 1)
    }
}

/// A run ends at or after its start and within the source.
pub proof fn lemma_run_bounds(src: Seq<u8>, from: int)
    requires
        0 <= from <= src.len(),
    ensures
        from <= blank_end(src, from) <= src.len(),
        from <= word_end(src, from) <= src.len(),
        from <= line_end(src, from) <= src.len(),
        from <= quote_end(src, from) <= src.len(),
    decreases src.len() - from,
{
    if from < src.len() {
        lemma_run_bounds(src, from + 1);
    }
}

/// What starts at `at` ends after `at` and within the source.
pub proof fn lemma_lexeme_advances(src: Seq<u8>, at: int)
    requires
        0 <= at < src.len(),
    ensures
        at < lexeme(src, at).1 <= src.len(),
{
    lemma_run_bounds(src, at);
    lemma_run_bounds(src, at + 1);
}

/// The tokens of the source from `at` on.
pub open spec fn tokens_from(src: Seq<u8>, at: int) -> Seq<SpecToken>
    decreases src.len() - at,
    via tokens_from_terminates
{
    if 0 <= at < src.len() {
        let (token, end) = lexeme(src, at);
        match token {
            Some(t) => seq![t] + tokens_from(src, end),
            None => tokens_from(src, end),
        }
    } else {
        Seq::empty()
    }
}

#[via_fn]
proof fn tokens_from_terminates(src: Seq<u8>, at: int) {
    if 0 <= at < src.len() {
        lemma_lexeme_advances(src, at);
    }
}

/// The tokens of the source.
pub open spec fn spec_tokenize(src: Seq<u8>) -> Seq<SpecToken> {
    tokens_from(src, 0)
}

fn blank(byte: u8) -> (yes: bool)
    ensures
        yes == is_blank(byte),
{
    byte == 0x20 || byte == 0x09 || byte == 0x0a || byte == 0x0c
}

fn digit(byte: u8) -> (yes: bool)
    ensures
        yes == is_digit(byte),
{
    0x30 <= byte && byte <= 0x39
}

fn word_byte(byte: u8) -> (yes: bool)
    ensures
        yes == is_word_byte(byte),
{
    digit(byte) || (0x41 <= byte && byte <= 0x5a) || (0x61 <= byte && byte <= 0x7a) || byte
        == 0x5f
}

fn hex_byte(byte: u8) -> (yes: bool)
    ensures
        yes == hex_value(byte) is Some,
{
    digit(byte) || (0x61 <= byte && byte <= 0x66) || (0x41 <= byte && byte <= 0x46)
}

/// Finds where the run of blanks that holds `from` ends.
fn scan_blanks(src: &[u8], from: usize) -> (end: usize)
    requires
        from <= src@.len(),
    ensures
        end == blank_end(src@, from as int),
        from <= end <= src@.len(),
{
    let mut end = from;
    while end < src.len() && blank(src[end])
        invariant
            from <= end <= src@.len(),
            blank_end(src@, from as int) == blank_end(src@, end as int),
        decreases src.len() - end,
    {
        end = end + 1;
    }
    end
}

/// Finds where the word that holds `from` ends.
fn scan_word(src: &[u8], from: usize) -> (end: usize)
    requires
        from <= src@.len(),
    ensures
        end == word_end(src@, from as int),
        from <= end <= src@.len(),
{
    let mut end = from;
    while end < src.len() && word_byte(src[end])
        invariant
            from <= end <= src@.len(),
            word_end(src@, from as int) == word_end(src@, end as int),
        decreases src.len() - end,
    {
        end = end + 1;
    }
    end
}

/// Finds the end of the line that holds `from`.
fn scan_line(src: &[u8], from: usize) -> (end: usize)
    requires
        from <= src@.len(),
    ensures
        end == line_end(src@, from as int),
        from <= end <= src@.len(),
{
    let mut end = from;
    while end < src.len() && src[end] != NEWLINE
        invariant
            from <= end <= src@.len(),
            line_end(src@, from as int) == line_end(src@, end as int),
        decreases src.len() - end,
    {
        end = end + 1;
    }
    end
}

/// Finds the first `"` at or after `from`.
fn scan_string(src: &[u8], from: usize) -> (end: usize)
    requires
        from <= src@.len(),
    ensures
        end == quote_end(src@, from as int),
        from <= end <= src@.len(),
{
    let mut end = from;
    while end < src.len() && src[end] != PUSH_STRING
        invariant
            from <= end <= src@.len(),
            quote_end(src@, from as int) == quote_end(src@, end as int),
        decreases src.len() - end,
    {
        end = end + 1;
    }
    end
}

/// A copy of `src[from..to]`.
fn copy_range(src: &[u8], from: usize, to: usize) -> (copy: Vec<u8>)
    requires
        from <= to <= src@.len(),
    ensures
        copy@ == src@.subrange(from as int, to as int),
{
    let mut copy: Vec<u8> = Vec::new();
    let mut i: usize = from;
    while i < to
        invariant
            from <= i <= to <= src@.len(),
            copy@ == src@.subrange(from as int, i as int),
        decreases to - i,
    {
        copy.push(src[i]);
        i = i + 1;
        assert(copy@ =~= src@.subrange(from as int, i as int));
    }
    copy
}

/// Whether `src[from..to]` spells `text`.
fn spells(src: &[u8], from: usize, to: usize, text: &str) -> (yes: bool)
    requires
        from <= to <= src@.len(),
    ensures
        yes == (src@.subrange(from as int, to as int) == text.spec_bytes()),
{
    let wanted = text.as_bytes();
    let ghost word = src@.subrange(from as int, to as int);
    if to - from != wanted.len() {
        return false;
    }
    let mut i: usize = 0;
    while i < wanted.len()
        invariant
            from <= to <= src@.len(),
            to - from == wanted@.len(),
            wanted@ == text.spec_bytes(),
            word == src@.subrange(from as int, to as int),
            i <= wanted@.len(),
            forall|k: int| 0 <= k < i ==> word[k] == wanted@[k],
        decreases wanted.len() - i,
    {
        if src[from + i] != wanted[i] {
            assert(word[i as int] != wanted@[i as int]);
            return false;
        }
        i = i + 1;
    }
    assert(word =~= wanted@);
    true
}

/// The literal that pushes `value`.
fn literal_for(value: u8) -> (text: Vec<u8>)
    ensures
        text@ == byte_literal(value),
{
    let (high, low) = hex_digits(value);
    let mut text: Vec<u8> = Vec::new();
    text.push(PUSH_HEX);
    text.push(high);
    text.push(low);
    assert(text@ =~= byte_literal(value));
    text
}

/// A vector of the bytes given.
fn bytes_of(first: u8, rest: Option<(u8, Option<u8>)>) -> (text: Vec<u8>)
    ensures
        text@ == match rest {
            None => seq![first],
            Some((second, None)) => seq![first, second],
            Some((second, Some(third))) => seq![first, second, third],
        },
{
    let mut text: Vec<u8> = Vec::new();
    text.push(first);
    match rest {
        None => {
            assert(text@ =~= seq![first]);
        },
        Some((second, None)) => {
            text.push(second);
            assert(text@ =~= seq![first, second]);
        },
        Some((second, Some(third))) => {
            text.push(second);
            text.push(third);
            assert(text@ =~= seq![first, second, third]);
        },
    }
    text
}

/// The mnemonic that `src[from..to]` spells, if it spells one.
fn find_mnemonic(src: &[u8], from: usize, to: usize) -> (found: Option<Token>)
    requires
        from <= to <= src@.len(),
    ensures
        crate::codegen::found_view(found) == mnemonic(src@.subrange(from as int, to as int)),
{
    if spells(src, from, to, "add") {
        Some(Token::Binary(BinaryOp::Add))
    } else if spells(src, from, to, "sub") {
        Some(Token::Binary(BinaryOp::Subtract))
    } else if spells(src, from, to, "mul") {
        Some(Token::Binary(BinaryOp::Multiply))
    } else if spells(src, from, to, "div") {
        Some(Token::Binary(BinaryOp::Divide))
    } else if spells(src, from, to, "mod") {
        Some(Token::Binary(BinaryOp::Modulo))
    } else if spells(src, from, to, "and") {
        Some(Token::Binary(BinaryOp::And))
    } else if spells(src, from, to, "or") {
        Some(Token::Binary(BinaryOp::Or))
    } else if spells(src, from, to, "xor") {
        Some(Token::Binary(BinaryOp::Xor))
    } else if spells(src, from, to, "eq") {
        Some(Token::Binary(BinaryOp::Equal))
    } else if spells(src, from, to, "lt") {
        Some(Token::Binary(BinaryOp::Less))
    } else if spells(src, from, to, "gt") {
        Some(Token::Binary(BinaryOp::Greater))
    } else if spells(src, from, to, "neg") || spells(src, from, to, "inv") {
        Some(Token::Unary(UnaryOp::Complement))
    } else if spells(src, from, to, "not") {
        Some(Token::Unary(UnaryOp::Not))
    } else if spells(src, from, to, "dup") {
        Some(Token::Unary(UnaryOp::Duplicate))
    } else if spells(src, from, to, "drop") {
        Some(Token::Unary(UnaryOp::Drop))
    } else if spells(src, from, to, "jz") {
        Some(Token::Unary(UnaryOp::Conditional))
    } else if spells(src, from, to, "out") || spells(src, from, to, "pri") {
        Some(Token::Unary(UnaryOp::Print))
    } else if spells(src, from, to, "st") {
        Some(Token::Unary(UnaryOp::Store))
    } else if spells(src, from, to, "while") || spells(src, from, to, "loop") {
        Some(Token::LoopStart)
    } else if spells(src, from, to, "cont") || spells(src, from, to, "next") {
        Some(Token::LoopContinue)
    } else if spells(src, from, to, "nonzero") {
        Some(Token::ConditionNonZero)
    } else if spells(src, from, to, "zero") {
        Some(Token::ConditionZero)
    } else if spells(src, from, to, "swap") {
        Some(Token::Swap)
    } else if spells(src, from, to, "values") {
        Some(Token::SwapValues)
    } else if spells(src, from, to, "stacks") {
        Some(Token::SwapStacks)
    } else if spells(src, from, to, "jmp") {
        Some(Token::Jump)
    } else if spells(src, from, to, "push") {
        Some(Token::Push)
    } else if spells(src, from, to, "in") || spells(src, from, to, "get") {
        Some(Token::Input)
    } else if spells(src, from, to, "ld") {
        Some(Token::LoadFromCell)
    } else if spells(src, from, to, "p1") {
        Some(Token::Target(Target::P1))
    } else if spells(src, from, to, "p2") {
        Some(Token::Target(Target::P2))
    } else if spells(src, from, to, "s1") {
        Some(Token::Target(Target::S1))
    } else if spells(src, from, to, "s2") {
        Some(Token::Target(Target::S2))
    } else if spells(src, from, to, "embed") {
        Some(Token::EmbeddedCode)
    } else {
        None
    }
}

/// One for the digit `1`, zero for any other byte.
fn bit_of(byte: u8) -> (value: u8)
    ensures
        value as nat == bit(byte),
{
    if byte == 0x31 {
        1
    } else {
        0
    }
}

/// The token that the word `src[from..to]` is.
fn lex_word(src: &[u8], from: usize, to: usize) -> (token: Token)
    requires
        from < to <= src@.len(),
    ensures
        token@ == word_token(src@.subrange(from as int, to as int)),
{
    let ghost word = src@.subrange(from as int, to as int);
    match find_mnemonic(src, from, to) {
        Some(token) => {
            return token;
        },
        None => {},
    }
    if to - from == 1 && 0x31 <= src[from] && src[from] <= 0x39 {
        assert(word[0] == src@[from as int]);
        return Token::JumpDistance(src[from] - 0x30);
    }
    if to - from == 9 && src[from] == 0x62 {
        assert(word[0] == src@[from as int]);
        let mut k: usize = 1;
        while k < 9 && (src[from + k] == 0x30 || src[from + k] == 0x31)
            invariant
                from + 9 == to <= src@.len(),
                word == src@.subrange(from as int, to as int),
                1 <= k <= 9,
                forall|j: int| 1 <= j < k ==> word[j] == 0x30 || word[j] == 0x31,
            decreases 9 - k,
        {
            assert(word[k as int] == src@[from + k]);
            k = k + 1;
        }
        if k == 9 {
            assert(forall|j: int| 0 <= j < 9 ==> word[j] == src@[from + j]);
            let value = 128 * bit_of(src[from + 1]) + 64 * bit_of(src[from + 2]) + 32 * bit_of(
                src[from + 3],
            ) + 16 * bit_of(src[from + 4]) + 8 * bit_of(src[from + 5]) + 4 * bit_of(
                src[from + 6],
            ) + 2 * bit_of(src[from + 7]) + bit_of(src[from + 8]);
            return Token::Literal(literal_for(value));
        }
        assert(word[k as int] == src@[from + k]);
    }
    Token::Invalid(copy_range(src, from, to))
}

/// The token that starts with the `#` at `at` and a digit, and where it
/// ends.
fn lex_decimal(src: &[u8], at: usize) -> (lexed: (Token, usize))
    requires
        at + 1 < src@.len(),
        is_digit(src@[at + 1]),
    ensures
        (lexed.0@, lexed.1 as int) == decimal_token(src@, at as int),
        at < lexed.1 <= src@.len(),
{
    let len = src.len();
    let first = src[at + 1] - 0x30;
    if 1 <= first && first <= 2 && len - at > 3 && digit(src[at + 2]) && digit(src[at + 3]) {
        let value: u16 = 100 * (first as u16) + 10 * ((src[at + 2] - 0x30) as u16) + ((src[at
            + 3] - 0x30) as u16);
        if value <= 255 {
            (Token::Literal(literal_for(value as u8)), at + 4)
        } else {
            (Token::Invalid(copy_range(src, at, at + 4)), at + 4)
        }
    } else if 1 <= first && len - at > 2 && digit(src[at + 2]) {
        let value = 10 * first + (src[at + 2] - 0x30);
        (Token::Literal(literal_for(value)), at + 3)
    } else {
        (Token::Literal(literal_for(first)), at + 2)
    }
}

/// Reads what starts at `at`: a token or nothing, and where it ends.
fn lex_one(src: &[u8], at: usize) -> (lexed: (Option<Token>, usize))
    requires
        at < src@.len(),
    ensures
        (crate::codegen::found_view(lexed.0), lexed.1 as int) == lexeme(src@, at as int),
        at < lexed.1 <= src@.len(),
{
    let len = src.len();
    let byte = src[at];
    proof {
        lemma_lexeme_advances(src@, at as int);
    }
    if blank(byte) {
        (None, scan_blanks(src, at))
    } else if byte == PUSH_HEX {
        if len - at > 1 && digit(src[at + 1]) {
            let (token, end) = lex_decimal(src, at);
            (Some(token), end)
        } else {
            (None, scan_line(src, at))
        }
    } else if byte == DOLLAR {
        if len - at > 2 && hex_byte(src[at + 1]) && hex_byte(src[at + 2]) {
            let text = bytes_of(PUSH_HEX, Some((src[at + 1], Some(src[at + 2]))));
            (Some(Token::Literal(text)), at + 3)
        } else {
            (Some(Token::Invalid(bytes_of(byte, None))), at + 1)
        }
    } else if byte == PUSH_CHAR {
        if len - at > 2 && src[at + 1] != NEWLINE && src[at + 2] == PUSH_CHAR {
            let text = bytes_of(PUSH_CHAR, Some((src[at + 1], None)));
            (Some(Token::Literal(text)), at + 3)
        } else {
            (Some(Token::Invalid(bytes_of(byte, None))), at + 1)
        }
    } else if byte == PUSH_STRING {
        let end = scan_string(src, at + 1);
        if end < len {
            (Some(Token::StringLiteral(copy_range(src, at + 1, end))), end + 1)
        } else {
            (Some(Token::Invalid(copy_range(src, at, len))), len)
        }
    } else if word_byte(byte) {
        let end = scan_word(src, at);
        (Some(lex_word(src, at, end)), end)
    } else {
        (Some(Token::Invalid(bytes_of(byte, None))), at + 1)
    }
}

/// Splits the source into tokens.
///
/// Blanks and comments are dropped. Text that is no token of the language
/// comes out as an invalid token, so every source has a list of tokens.
pub fn tokenize(source: &[u8]) -> (tokens: Vec<Token>)
    ensures
        token_views(tokens@) == spec_tokenize(source@),
{
    let mut tokens: Vec<Token> = Vec::new();
    let mut at: usize = 0;
    assert(token_views(tokens@) + tokens_from(source@, 0) =~= tokens_from(source@, 0));
    while at < source.len()
        invariant
            at <= source@.len(),
            spec_tokenize(source@) == token_views(tokens@) + tokens_from(source@, at as int),
        decreases source.len() - at,
    {
        let ghost before = token_views(tokens@);
        let (token, end) = lex_one(source, at);
        match token {
            Some(t) => {
                let ghost view = t@;
                tokens.push(t);
                assert(token_views(tokens@) =~= before.push(view));
                assert(before + (seq![view] + tokens_from(source@, end as int)) =~= before.push(
                    view,
                ) + tokens_from(source@, end as int));
            },
            None => {},
        }
        at = end;
    }
    assert(token_views(tokens@) + Seq::<SpecToken>::empty() =~= token_views(tokens@));
    tokens
}

} // verus!
