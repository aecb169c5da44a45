//! The scanner: which token stands at the start of a text.

use crate::charclass::{
    alphabetic_char, alphanumeric_char, leading_run, lemma_run_length_is,
    lemma_run_length_is_maximal, numeric_char, run_length, whitespace_char, CharSet,
};
use crate::decimal::{
    decimal_value, is_decimal_literal, lemma_decimal_digits_of_value, parse_decimal,
};
use crate::text::{chars_of, string_of};
use crate::token::{Token, TokenType};
use vstd::prelude::*;
use vstd::string::StrSliceExecFns;

verus! {

/// Whether `s` begins with `word` and has `delimiter` right after it.
pub open spec fn word_precedes(s: Seq<char>, word: Seq<char>, delimiter: char) -> bool {
    &&& s.len() > word.len()
    &&& s.take(word.len() as int) == word
    &&& s[word.len() as int] == delimiter
}

/// The keyword at the start of `s`, if there is one. A keyword counts only
/// with its delimiter behind it: a space, or for `return` a space or a
/// semicolon. A text that ends with the bare word holds no keyword.
pub open spec fn keyword_at(s: Seq<char>) -> Option<Token> {
    if word_precedes(s, "void"@, ' ') {
        Some(Token::VoidKeyword)
    } else if word_precedes(s, "int"@, ' ') {
        Some(Token::IntKeyword)
    } else if word_precedes(s, "return"@, ' ') || word_precedes(s, "return"@, ';') {
        Some(Token::ReturnKeyword)
    } else if word_precedes(s, "stats"@, ' ') {
        Some(Token::StatsKeyword)
    } else if word_precedes(s, "count"@, ' ') {
        Some(Token::CountKeyword)
    } else if word_precedes(s, "by"@, ' ') {
        Some(Token::ByKeyword)
    } else {
        None
    }
}

/// The token of a punctuation mark, and `Empty` for any other character.
pub open spec fn punctuation(c: char) -> Token {
    if c == '{' {
        Token::OpenBrace
    } else if c == '(' {
        Token::OpenParen
    } else if c == '}' {
        Token::CloseBrace
    } else if c == ')' {
        Token::CloseParen
    } else if c == ';' {
        Token::Semicolon
    } else if c == '|' {
        Token::Pipe
    } else if c == '=' {
        Token::Equals
    } else {
        Token::Empty
    }
}

/// The token at the start of `s`. The first character decides, and the first
/// of these cases that applies holds:
/// - no character: `Empty`;
/// - whitespace: `Whitespace` with the length of the leading whitespace run;
/// - a letter: the keyword at the start, or else `Identifier` with the leading
///   run of letters and numeric characters;
/// - a numeric character: `Constant` with the value of the leading numeric
///   run where that run is a decimal literal, and `Empty` where it is not;
/// - anything else: the token of the punctuation mark, or `Empty`.
pub open spec fn classify(s: Seq<char>) -> Token {
    if s.len() == 0 {
        Token::Empty
    } else if whitespace_char(s[0]) {
        Token::Whitespace(run_length(s, CharSet::Whitespace))
    } else if alphabetic_char(s[0]) {
        match keyword_at(s) {
            Some(keyword) => keyword,
            None => Token::Identifier(s.take(run_length(s, CharSet::Alphanumeric) as int)),
        }
    } else if numeric_char(s[0]) {
        let literal = s.take(run_length(s, CharSet::Numeric) as int);
        if is_decimal_literal(literal) {
            Token::Constant(decimal_value(literal))
        } else {
            Token::Empty
        }
    } else {
        punctuation(s[0])
    }
}

/// The number of characters at the start of `s` that the token there was read
/// from: the whole numeric run for a constant, whatever its value, and the
/// token's own width for every other token. Behind these characters the next
/// token begins.
pub open spec fn consumed(s: Seq<char>) -> nat {
    match classify(s) {
        Token::Constant(_) => run_length(s, CharSet::Numeric),
        token => token.width(),
    }
}

/// Why the scanner recognised no token at the start of a text that has not
/// ended.
#[derive(Clone, Copy, Debug, PartialEq, Eq, Structural)]
pub enum Fault {
    /// The text begins with a character that starts no token.
    UnrecognizedCharacter(char),
    /// The text begins with a numeric run that is no decimal literal: it holds
    /// a character that is no ASCII digit, or its value exceeds `isize::MAX`.
    InvalidNumericLiteral,
}

/// The fault at the start of `s`: none where `s` has ended or a token stands
/// there.
pub open spec fn fault_at(s: Seq<char>) -> Option<Fault> {
    if s.len() == 0 || !(classify(s) is Empty) {
        None
    } else if numeric_char(s[0]) {
        Some(Fault::InvalidNumericLiteral)
    } else {
        Some(Fault::UnrecognizedCharacter(s[0]))
    }
}

/// Tests whether `text` begins with `word` and has `delimiter` right after
/// it. A text too short for both does not.
fn follows(text: &[char], word: &str, delimiter: char) -> (found: bool)
    ensures
        found == word_precedes(text@, word@, delimiter),
{
    let length = word.unicode_len();
    if text.len() <= length {
        return false;
    }
    let mut i: usize = 0;
    while i < length
        invariant
            i <= length,
            length == word@.len(),
            length < text@.len(),
            text@.take(i as int) == word@.take(i as int),
        decreases length - i,
    {
        if text[i] != word.get_char(i) {
            proof {
                assert(text@.take(length as int)[i as int] != word@[i as int]);
            }
            return false;
        }
        proof {
            assert(text@.take(i + 1) == text@.take(i as int).push(text@[i as int]));
            assert(word@.take(i + 1) == word@.take(i as int).push(word@[i as int]));
        }
        i += 1;
    }
    proof {
        assert(word@.take(length as int) == word@);
    }
    text[length] == delimiter
}

/// The keyword at the start of `text`, if there is one.
fn keyword(text: &[char]) -> (found: Option<TokenType>)
    ensures
        match found {
            Some(token) => keyword_at(text@) == Some(token@),
            None => keyword_at(text@) is None,
        },
{
    if follows(text, "void", ' ') {
        Some(TokenType::VoidKeyword)
    } else if follows(text, "int", ' ') {
        Some(TokenType::IntKeyword)
    } else if follows(text, "return", ' ') || follows(text, "return", ';') {
        Some(TokenType::ReturnKeyword)
    } else if follows(text, "stats", ' ') {
        Some(TokenType::StatsKeyword)
    } else if follows(text, "count", ' ') {
        Some(TokenType::CountKeyword)
    } else if follows(text, "by", ' ') {
        Some(TokenType::ByKeyword)
    } else {
        None
    }
}

/// The token of a punctuation mark, and `Empty` for any other character.
fn punctuation_token(c: char) -> (token: TokenType)
    ensures
        token@ == punctuation(c),
{
    match c {
        '{' => TokenType::OpenBrace,
        '(' => TokenType::OpenParen,
        '}' => TokenType::CloseBrace,
        ')' => TokenType::CloseParen,
        ';' => TokenType::Semicolon,
        '|' => TokenType::Pipe,
        '=' => TokenType::Equals,
        _ => TokenType::Empty,
    }
}

/// Classifies the token at the start of `text`, given as characters, and
/// tells with it how many characters it was read from.
pub fn scan_with_width(text: &[char]) -> (found: (TokenType, usize))
    ensures
        found.0@ == classify(text@),
        found.1 == consumed(text@),
{
    if text.len() == 0 {
        return (TokenType::Empty, 0);
    }
    let first = text[0];
    if first.is_whitespace() {
        let length = leading_run(text, CharSet::Whitespace);
        (TokenType::Whitespace(length), length)
    } else if first.is_alphabetic() {
        match keyword(text) {
            Some(token) => {
                let width = token.width();
                (token, width)
            },
            None => {
                let length = leading_run(text, CharSet::Alphanumeric);
                (TokenType::Identifier(string_of(&text[0..length])), length)
            },
        }
    } else if first.is_numeric() {
        let length = leading_run(text, CharSet::Numeric);
        match parse_decimal(&text[0..length]) {
            Some(value) => (TokenType::Constant(value), length),
            None => (TokenType::Empty, 0),
        }
    } else {
        let token = punctuation_token(first);
        let width = token.width();
        (token, width)
    }
}

/// Classifies the token at the start of `text`, given as characters.
pub fn scan(text: &[char]) -> (token: TokenType)
    ensures
        token@ == classify(text@),
{
    scan_with_width(text).0
}

/// What is wrong at the start of a text in which the scanner recognised
/// nothing.
pub(crate) fn fault_of(text: &[char]) -> (fault: Fault)
    requires
        text@.len() > 0,
        classify(text@) is Empty,
    ensures
        fault_at(text@) == Some(fault),
{
    let first = text[0];
    if first.is_numeric() {
        Fault::InvalidNumericLiteral
    } else {
        Fault::UnrecognizedCharacter(first)
    }
}

/// Classifies the token at the start of `source` and tells a fault from the
/// end of the text: the token where one stands there, `Empty` where the text
/// has ended, and the fault where the text goes on and no token is
/// recognised.
pub fn try_scan(source: &str) -> (found: Result<TokenType, Fault>)
    ensures
        match found {
            Ok(token) => token@ == classify(source@) && fault_at(source@) is None,
            Err(fault) => fault_at(source@) == Some(fault),
        },
{
    let chars = chars_of(source);
    let text = chars.as_slice();
    let token = scan(text);
    if text.len() == 0 {
        return Ok(token);
    }
    match token {
        TokenType::Empty => Err(fault_of(text)),
        _ => Ok(token),
    }
}

/// Classifies the token at the start of `source` without consuming anything:
/// the result is `classify` of the characters of `source`.
pub fn mad_scan(source: &str) -> (token: TokenType)
    ensures
        token@ == classify(source@),
{
    let chars = chars_of(source);
    scan(chars.as_slice())
}

/// Tells whether `source` begins with whitespace, and with how many
/// characters of it: `(true, n)` where the leading whitespace run has `n`
/// characters, `(false, 0)` where the first character is no whitespace. The
/// text must hold a character.
pub fn scan_for_whitespace(source: &str) -> (found: (bool, i64))
    requires
        source@.len() > 0,
    ensures
        found == if whitespace_char(source@[0]) {
            (true, run_length(source@, CharSet::Whitespace) as i64)
        } else {
            (false, 0i64)
        },
{
    let chars = chars_of(source);
    if chars[0].is_whitespace() {
        let length = leading_run(chars.as_slice(), CharSet::Whitespace);
        (true, #[verifier::truncate] (length as i64))
    } else {
        (false, 0)
    }
}

/// Tells whether `source` begins with the keyword `void` and a space behind
/// it. A text of fewer than five characters does not.
pub fn scan_for_void(source: &str) -> (found: bool)
    ensures
        found == word_precedes(source@, "void"@, ' '),
{
    let chars = chars_of(source);
    follows(chars.as_slice(), "void", ' ')
}

/// A text that holds a character and nothing but whitespace is one
/// `Whitespace` token that counts all of its characters.
pub proof fn lemma_whitespace_only(s: Seq<char>)
    requires
        s.len() > 0,
        forall|i: int| 0 <= i < s.len() ==> whitespace_char(#[trigger] s[i]),
    ensures
        classify(s) == Token::Whitespace(s.len()),
{
    lemma_run_length_is(s, CharSet::Whitespace, s.len());
}

/// A decimal literal, followed by nothing or by a character that is not
/// numeric, is the `Constant` of its value.
pub proof fn lemma_constant_is_value_of_run(digits: Seq<char>, rest: Seq<char>)
    requires
        is_decimal_literal(digits),
        rest.len() == 0 || !numeric_char(rest[0]),
    ensures
        classify(digits + rest) == Token::Constant(decimal_value(digits)),
{
    let s = digits + rest;
    assert(s[0] == digits[0]);
    assert forall|i: int| 0 <= i < digits.len() implies CharSet::Numeric.has(#[trigger] s[i]) by {
        assert(s[i] == digits[i]);
    }
    if digits.len() < s.len() {
        assert(s[digits.len() as int] == rest[0]);
    }
    lemma_run_length_is(s, CharSet::Numeric, digits.len());
    assert(s.take(digits.len() as int) == digits);
}

/// A keyword with its delimiter behind it is that keyword's token, never an
/// identifier.
pub proof fn lemma_keyword_takes_precedence(s: Seq<char>)
    ensures
        word_precedes(s, "int"@, ' ') ==> classify(s) == Token::IntKeyword,
        word_precedes(s, "void"@, ' ') ==> classify(s) == Token::VoidKeyword,
        word_precedes(s, "return"@, ' ') ==> classify(s) == Token::ReturnKeyword,
        word_precedes(s, "return"@, ';') ==> classify(s) == Token::ReturnKeyword,
        word_precedes(s, "stats"@, ' ') ==> classify(s) == Token::StatsKeyword,
        word_precedes(s, "count"@, ' ') ==> classify(s) == Token::CountKeyword,
        word_precedes(s, "by"@, ' ') ==> classify(s) == Token::ByKeyword,
{
    lemma_keyword_begins(s);
}

/// A text that begins with a letter and holds no keyword at its start is the
/// `Identifier` of its leading run of letters and numeric characters:
/// whatever ends the run, the end of the text or a character of another kind,
/// stays out of the name.
pub proof fn lemma_identifier_is_leading_run(name: Seq<char>, rest: Seq<char>)
    requires
        name.len() > 0,
        alphabetic_char(name[0]),
        !whitespace_char(name[0]),
        forall|i: int| 0 <= i < name.len() ==> alphanumeric_char(#[trigger] name[i]),
        rest.len() == 0 || !alphanumeric_char(rest[0]),
        keyword_at(name + rest) is None,
    ensures
        classify(name + rest) == Token::Identifier(name),
{
    let s = name + rest;
    assert(s[0] == name[0]);
    assert forall|i: int| 0 <= i < name.len() implies CharSet::Alphanumeric.has(
        #[trigger] s[i],
    ) by {
        assert(s[i] == name[i]);
    }
    if name.len() < s.len() {
        assert(s[name.len() as int] == rest[0]);
    }
    lemma_run_length_is(s, CharSet::Alphanumeric, name.len());
    assert(s.take(name.len() as int) == name);
}

/// A text with a keyword at its start begins with a lower-case letter, and
/// the keywords differ in their first letters.
proof fn lemma_keyword_begins(s: Seq<char>)
    ensures
        keyword_at(s) is Some ==> s.len() > 0 && alphabetic_char(s[0]) && !whitespace_char(s[0]),
        word_precedes(s, "int"@, ' ') ==> keyword_at(s) == Some(Token::IntKeyword),
        word_precedes(s, "void"@, ' ') ==> keyword_at(s) == Some(Token::VoidKeyword),
        word_precedes(s, "return"@, ' ') ==> keyword_at(s) == Some(Token::ReturnKeyword),
        word_precedes(s, "return"@, ';') ==> keyword_at(s) == Some(Token::ReturnKeyword),
        word_precedes(s, "stats"@, ' ') ==> keyword_at(s) == Some(Token::StatsKeyword),
        word_precedes(s, "count"@, ' ') ==> keyword_at(s) == Some(Token::CountKeyword),
        word_precedes(s, "by"@, ' ') ==> keyword_at(s) == Some(Token::ByKeyword),
        keyword_at(s) matches Some(token) ==> 1 <= token.width() < s.len() && !token.ends_lexing(),
{
    reveal_strlit("void");
    reveal_strlit("int");
    reveal_strlit("return");
    reveal_strlit("stats");
    reveal_strlit("count");
    reveal_strlit("by");
    if s.len() > 0 {
        assert("void"@[0] == 'v' && "int"@[0] == 'i' && "return"@[0] == 'r');
        assert("stats"@[0] == 's' && "count"@[0] == 'c' && "by"@[0] == 'b');
        assert(word_precedes(s, "void"@, ' ') ==> s[0] == s.take(4)[0]);
        assert(word_precedes(s, "int"@, ' ') ==> s[0] == s.take(3)[0]);
        assert(word_precedes(s, "return"@, ' ') || word_precedes(s, "return"@, ';') ==> s[0]
            == s.take(6)[0]);
        assert(word_precedes(s, "stats"@, ' ') ==> s[0] == s.take(5)[0]);
        assert(word_precedes(s, "count"@, ' ') ==> s[0] == s.take(5)[0]);
        assert(word_precedes(s, "by"@, ' ') ==> s[0] == s.take(2)[0]);
    }
}

/// A token that the scanner recognises was read from at least one character
/// and from no more than the text holds, its own width is no more than that,
/// and the scanner never yields `Value`.
pub proof fn lemma_token_fits(s: Seq<char>)
    ensures
        !(classify(s) is Value),
        !(classify(s) is Empty) ==> 1 <= consumed(s) <= s.len(),
        classify(s).width() <= consumed(s),
{
    if s.len() == 0 {
    } else if whitespace_char(s[0]) {
        lemma_run_length_is_maximal(s, CharSet::Whitespace);
    } else if alphabetic_char(s[0]) {
        lemma_keyword_begins(s);
        lemma_run_length_is_maximal(s, CharSet::Alphanumeric);
    } else if numeric_char(s[0]) {
        lemma_run_length_is_maximal(s, CharSet::Numeric);
        let literal = s.take(run_length(s, CharSet::Numeric) as int);
        if is_decimal_literal(literal) {
            lemma_decimal_digits_of_value(literal);
        }
    } else {
    }
}

/// Whether `next` may be the token right behind `token` in a text. Runs are
/// taken whole: no whitespace follows whitespace, no constant follows a
/// constant, and neither a name, a keyword nor a constant follows a name.
pub open spec fn may_follow(token: Token, next: Token) -> bool {
    match token {
        Token::Whitespace(_) => !(next is Whitespace),
        Token::Constant(_) => !(next is Constant),
        Token::Identifier(_) => !(next is Identifier || next is Constant || next.is_keyword()),
        _ => true,
    }
}

/// The token behind a token is one that may follow it.
pub proof fn lemma_next_token_may_follow(s: Seq<char>)
    requires
        !(classify(s) is Empty),
    ensures
        may_follow(classify(s), classify(s.skip(consumed(s) as int))),
{
    let rest = s.skip(consumed(s) as int);
    lemma_token_fits(s);
    lemma_keyword_begins(s);
    lemma_keyword_begins(rest);
    lemma_run_length_is_maximal(s, CharSet::Whitespace);
    lemma_run_length_is_maximal(s, CharSet::Alphanumeric);
    lemma_run_length_is_maximal(s, CharSet::Numeric);
    if rest.len() > 0 {
        assert(rest[0] == s[consumed(s) as int]);
    }
}

} // verus!
