//! The tokens of the language.

use crate::decimal::{decimal_digits, decimal_text, decimal_width, push_decimal, push_digits};
use vstd::prelude::*;
use vstd::string::{StrSliceExecFns, StringExecFns};

verus! {

/// A token as the lexer produces it.
#[derive(Debug)]
pub enum TokenType {
    /// A run of whitespace, with the number of characters in it.
    Whitespace(usize),
    /// An integer literal, with its value.
    Constant(isize),
    /// The keyword `int`.
    IntKeyword,
    /// The keyword `void`.
    VoidKeyword,
    /// The keyword `return`.
    ReturnKeyword,
    /// The keyword `stats`.
    StatsKeyword,
    /// The keyword `by`.
    ByKeyword,
    /// The keyword `count`.
    CountKeyword,
    /// A name, with its text.
    Identifier(String),
    /// A value given as text. The scanner never produces it, and the lexer
    /// stops at it as it stops at `Empty`.
    Value(String),
    /// `(`
    OpenParen,
    /// `)`
    CloseParen,
    /// `{`
    OpenBrace,
    /// `}`
    CloseBrace,
    /// `;`
    Semicolon,
    /// `|`
    Pipe,
    /// `=`
    Equals,
    /// No token: the scanner recognised nothing at this place.
    Empty,
}

/// A token as a mathematical value: numbers are unbounded and texts are
/// sequences of characters.
pub enum Token {
    Whitespace(nat),
    Constant(int),
    IntKeyword,
    VoidKeyword,
    ReturnKeyword,
    StatsKeyword,
    ByKeyword,
    CountKeyword,
    Identifier(Seq<char>),
    Value(Seq<char>),
    OpenParen,
    CloseParen,
    OpenBrace,
    CloseBrace,
    Semicolon,
    Pipe,
    Equals,
    Empty,
}

impl Token {
    /// The number of characters that the token takes when it is written out:
    /// the count of a whitespace run, the length of a name or of a value, the
    /// length of the decimal text of a constant, the length of a keyword and
    /// one for a punctuation mark. `Empty` takes none. A constant may have
    /// been read from a longer run, one with zeros in front.
    pub open spec fn width(self) -> nat {
        match self {
            Token::Whitespace(count) => count,
            Token::Constant(value) => decimal_text(value).len(),
            Token::IntKeyword => 3,
            Token::VoidKeyword => 4,
            Token::ReturnKeyword => 6,
            Token::StatsKeyword => 5,
            Token::ByKeyword => 2,
            Token::CountKeyword => 5,
            Token::Identifier(name) => name.len(),
            Token::Value(text) => text.len(),
            Token::OpenParen => 1,
            Token::CloseParen => 1,
            Token::OpenBrace => 1,
            Token::CloseBrace => 1,
            Token::Semicolon => 1,
            Token::Pipe => 1,
            Token::Equals => 1,
            Token::Empty => 0,
        }
    }

    /// Whether the token is one of the keywords.
    pub open spec fn is_keyword(self) -> bool {
        self is IntKeyword || self is VoidKeyword || self is ReturnKeyword || self is StatsKeyword
            || self is ByKeyword || self is CountKeyword
    }

    /// Whether the lexer stops at this token without keeping it.
    pub open spec fn ends_lexing(self) -> bool {
        self is Empty || self is Value
    }

    /// The text that displays the token: the variant's name, followed for a
    /// variant with data by a colon, a space and the data.
    pub open spec fn display(self) -> Seq<char> {
        match self {
            Token::Whitespace(count) => "Whitespace: "@ + decimal_digits(count),
            Token::Constant(value) => "Constant: "@ + decimal_text(value),
            Token::IntKeyword => "IntKeyword"@,
            Token::VoidKeyword => "VoidKeyword"@,
            Token::ReturnKeyword => "ReturnKeyword"@,
            Token::StatsKeyword => "StatsKeyword"@,
            Token::ByKeyword => "ByKeyword"@,
            Token::CountKeyword => "CountKeyword"@,
            Token::Identifier(name) => "Identifier: "@ + name,
            Token::Value(text) => "Value: "@ + text,
            Token::OpenParen => "OpenParen"@,
            Token::CloseParen => "CloseParen"@,
            Token::OpenBrace => "OpenBrace"@,
            Token::CloseBrace => "CloseBrace"@,
            Token::Semicolon => "Semicolon"@,
            Token::Pipe => "Pipe"@,
            Token::Equals => "Equals"@,
            Token::Empty => "Empty"@,
        }
    }
}

impl View for TokenType {
    type V = Token;

    open spec fn view(&self) -> Token {
        match self {
            TokenType::Whitespace(count) => Token::Whitespace(*count as nat),
            TokenType::Constant(value) => Token::Constant(*value as int),
            TokenType::IntKeyword => Token::IntKeyword,
            TokenType::VoidKeyword => Token::VoidKeyword,
            TokenType::ReturnKeyword => Token::ReturnKeyword,
            TokenType::StatsKeyword => Token::StatsKeyword,
            TokenType::ByKeyword => Token::ByKeyword,
            TokenType::CountKeyword => Token::CountKeyword,
            TokenType::Identifier(name) => Token::Identifier(name@),
            TokenType::Value(text) => Token::Value(text@),
            TokenType::OpenParen => Token::OpenParen,
            TokenType::CloseParen => Token::CloseParen,
            TokenType::OpenBrace => Token::OpenBrace,
            TokenType::CloseBrace => Token::CloseBrace,
            TokenType::Semicolon => Token::Semicolon,
            TokenType::Pipe => Token::Pipe,
            TokenType::Equals => Token::Equals,
            TokenType::Empty => Token::Empty,
        }
    }
}

/// The tokens of a sequence as mathematical values.
pub open spec fn token_views(tokens: Seq<TokenType>) -> Seq<Token> {
    tokens.map_values(|token: TokenType| token@)
}

impl PartialEq for TokenType {
    /// Two tokens are equal when they are of the same variant and carry the
    /// same data.
    fn eq(&self, other: &Self) -> (equal: bool) {
        match (self, other) {
            (TokenType::Whitespace(a), TokenType::Whitespace(b)) => *a == *b,
            (TokenType::Constant(a), TokenType::Constant(b)) => *a == *b,
            (TokenType::IntKeyword, TokenType::IntKeyword) => true,
            (TokenType::VoidKeyword, TokenType::VoidKeyword) => true,
            (TokenType::ReturnKeyword, TokenType::ReturnKeyword) => true,
            (TokenType::StatsKeyword, TokenType::StatsKeyword) => true,
            (TokenType::ByKeyword, TokenType::ByKeyword) => true,
            (TokenType::CountKeyword, TokenType::CountKeyword) => true,
            (TokenType::Identifier(a), TokenType::Identifier(b)) => *a == *b,
            (TokenType::Value(a), TokenType::Value(b)) => *a == *b,
            (TokenType::OpenParen, TokenType::OpenParen) => true,
            (TokenType::CloseParen, TokenType::CloseParen) => true,
            (TokenType::OpenBrace, TokenType::OpenBrace) => true,
            (TokenType::CloseBrace, TokenType::CloseBrace) => true,
            (TokenType::Semicolon, TokenType::Semicolon) => true,
            (TokenType::Pipe, TokenType::Pipe) => true,
            (TokenType::Equals, TokenType::Equals) => true,
            (TokenType::Empty, TokenType::Empty) => true,
            _ => false,
        }
    }
}

impl vstd::std_specs::cmp::PartialEqSpecImpl for TokenType {
    open spec fn obeys_eq_spec() -> bool {
        true
    }

    open spec fn eq_spec(&self, other: &Self) -> bool {
        self@ == other@
    }
}

impl TokenType {
    /// The number of characters that the token takes when it is written out.
    pub fn width(&self) -> (width: usize)
        ensures
            width == self@.width(),
    {
        match self {
            TokenType::Whitespace(count) => *count,
            TokenType::Constant(value) => decimal_width(*value),
            TokenType::IntKeyword => 3,
            TokenType::VoidKeyword => 4,
            TokenType::ReturnKeyword => 6,
            TokenType::StatsKeyword => 5,
            TokenType::ByKeyword => 2,
            TokenType::CountKeyword => 5,
            TokenType::Identifier(name) => name.as_str().unicode_len(),
            TokenType::Value(text) => text.as_str().unicode_len(),
            TokenType::OpenParen => 1,
            TokenType::CloseParen => 1,
            TokenType::OpenBrace => 1,
            TokenType::CloseBrace => 1,
            TokenType::Semicolon => 1,
            TokenType::Pipe => 1,
            TokenType::Equals => 1,
            TokenType::Empty => 0,
        }
    }

    /// The text that displays the token.
    pub fn to_string(&self) -> (text: String)
        ensures
            text@ == self@.display(),
    {
        match self {
            TokenType::Whitespace(count) => {
                let mut text = String::from_str("Whitespace: ");
                push_digits(&mut text, *count as u128);
                text
            },
            TokenType::Constant(value) => {
                let mut text = String::from_str("Constant: ");
                push_decimal(&mut text, *value);
                text
            },
            TokenType::IntKeyword => String::from_str("IntKeyword"),
            TokenType::VoidKeyword => String::from_str("VoidKeyword"),
            TokenType::ReturnKeyword => String::from_str("ReturnKeyword"),
            TokenType::StatsKeyword => String::from_str("StatsKeyword"),
            TokenType::ByKeyword => String::from_str("ByKeyword"),
            TokenType::CountKeyword => String::from_str("CountKeyword"),
            TokenType::Identifier(name) => String::from_str("Identifier: ").concat(name.as_str()),
            TokenType::Value(text) => String::from_str("Value: ").concat(text.as_str()),
            TokenType::OpenParen => String::from_str("OpenParen"),
            TokenType::CloseParen => String::from_str("CloseParen"),
            TokenType::OpenBrace => String::from_str("OpenBrace"),
            TokenType::CloseBrace => String::from_str("CloseBrace"),
            TokenType::Semicolon => String::from_str("Semicolon"),
            TokenType::Pipe => String::from_str("Pipe"),
            TokenType::Equals => String::from_str("Equals"),
            TokenType::Empty => String::from_str("Empty"),
        }
    }
}

} // verus!
