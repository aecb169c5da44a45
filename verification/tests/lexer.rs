use sprunk::lexer::{lexer, lexer_with_recovery, Diagnostic, Recovery};
use sprunk::scanner::Fault;
use sprunk::token::TokenType;

fn total_width(tokens: &[TokenType]) -> usize {
    let mut total = 0;
    for token in tokens {
        total += token.width();
    }
    total
}

#[test]
fn lexer_tokenizes_a_function() {
    let tokens = lexer("int main() { return 365; }");
    assert_eq!(
        tokens,
        vec![
            TokenType::IntKeyword,
            TokenType::Whitespace(1),
            TokenType::Identifier(String::from("main")),
            TokenType::OpenParen,
            TokenType::CloseParen,
            TokenType::Whitespace(1),
            TokenType::OpenBrace,
            TokenType::Whitespace(1),
            TokenType::ReturnKeyword,
            TokenType::Whitespace(1),
            TokenType::Constant(365),
            TokenType::Semicolon,
            TokenType::Whitespace(1),
            TokenType::CloseBrace,
        ]
    );
}

#[test]
fn lexer_tokenizes_a_pipeline() {
    let tokens = lexer("source = logs | stats count by host\n");
    assert_eq!(
        tokens,
        vec![
            TokenType::Identifier(String::from("source")),
            TokenType::Whitespace(1),
            TokenType::Equals,
            TokenType::Whitespace(1),
            TokenType::Identifier(String::from("logs")),
            TokenType::Whitespace(1),
            TokenType::Pipe,
            TokenType::Whitespace(1),
            TokenType::StatsKeyword,
            TokenType::Whitespace(1),
            TokenType::CountKeyword,
            TokenType::Whitespace(1),
            TokenType::ByKeyword,
            TokenType::Whitespace(1),
            TokenType::Identifier(String::from("host")),
            TokenType::Whitespace(1),
        ]
    );
}

#[test]
fn lexer_of_empty_text_is_empty() {
    assert_eq!(lexer(""), Vec::<TokenType>::new());
    for recovery in [Recovery::Stop, Recovery::SkipCharacter] {
        let outcome = lexer_with_recovery("", recovery);
        assert!(outcome.tokens.is_empty());
        assert!(outcome.diagnostics.is_empty());
    }
}

#[test]
fn lexer_stops_silently_at_unrecognised_character() {
    assert_eq!(
        lexer("int x # rest"),
        vec![
            TokenType::IntKeyword,
            TokenType::Whitespace(1),
            TokenType::Identifier(String::from("x")),
            TokenType::Whitespace(1),
        ]
    );
    assert_eq!(lexer("#"), Vec::<TokenType>::new());
}

#[test]
fn lexer_reports_unrecognised_character() {
    let outcome = lexer_with_recovery("int x # rest", Recovery::Stop);
    assert_eq!(outcome.tokens.len(), 4);
    assert_eq!(
        outcome.diagnostics,
        vec![Diagnostic { position: 6, fault: Fault::UnrecognizedCharacter('#') }]
    );
    let outcome = lexer_with_recovery("\u{a0}\u{a0}\u{1f49d}", Recovery::Stop);
    assert_eq!(outcome.tokens, vec![TokenType::Whitespace(2)]);
    assert_eq!(
        outcome.diagnostics,
        vec![Diagnostic { position: 2, fault: Fault::UnrecognizedCharacter('\u{1f49d}') }]
    );
}

#[test]
fn lexer_reports_invalid_numeric_literal() {
    let source = format!("return {}0;", isize::MAX);
    let outcome = lexer_with_recovery(&source, Recovery::Stop);
    assert_eq!(outcome.tokens, vec![TokenType::ReturnKeyword, TokenType::Whitespace(1)]);
    assert_eq!(
        outcome.diagnostics,
        vec![Diagnostic { position: 7, fault: Fault::InvalidNumericLiteral }]
    );
    let outcome = lexer_with_recovery("x = \u{663}", Recovery::Stop);
    assert_eq!(outcome.tokens.len(), 4);
    assert_eq!(
        outcome.diagnostics,
        vec![Diagnostic { position: 4, fault: Fault::InvalidNumericLiteral }]
    );
}

#[test]
fn lexer_reports_nothing_on_complete_text() {
    for recovery in [Recovery::Stop, Recovery::SkipCharacter] {
        let outcome = lexer_with_recovery("int main() { return 365; }", recovery);
        assert_eq!(outcome.tokens, lexer("int main() { return 365; }"));
        assert_eq!(outcome.tokens.len(), 14);
        assert!(outcome.diagnostics.is_empty());
    }
}

#[test]
fn stopping_gives_the_tokens_of_lexer() {
    for source in [
        "",
        "int x",
        "a b c #",
        "# a b c",
        "| stats count by x",
        "12 007 x9",
        "{(;)}=|",
        "99999999999999999999999",
    ] {
        let outcome = lexer_with_recovery(source, Recovery::Stop);
        assert_eq!(outcome.tokens, lexer(source));
        assert!(outcome.diagnostics.len() <= 1);
    }
}

#[test]
fn skipping_goes_on_behind_the_character_of_a_fault() {
    let outcome = lexer_with_recovery("int x # rest", Recovery::SkipCharacter);
    assert_eq!(
        outcome.tokens,
        vec![
            TokenType::IntKeyword,
            TokenType::Whitespace(1),
            TokenType::Identifier(String::from("x")),
            TokenType::Whitespace(1),
            TokenType::Whitespace(1),
            TokenType::Identifier(String::from("rest")),
        ]
    );
    assert_eq!(
        outcome.diagnostics,
        vec![Diagnostic { position: 6, fault: Fault::UnrecognizedCharacter('#') }]
    );
}

#[test]
fn skipping_reports_every_fault() {
    let outcome = lexer_with_recovery("#a-_b\u{663}", Recovery::SkipCharacter);
    assert_eq!(
        outcome.tokens,
        vec![TokenType::Identifier(String::from("a")), TokenType::Identifier(String::from("b\u{663}"))]
    );
    assert_eq!(
        outcome.diagnostics,
        vec![
            Diagnostic { position: 0, fault: Fault::UnrecognizedCharacter('#') },
            Diagnostic { position: 2, fault: Fault::UnrecognizedCharacter('-') },
            Diagnostic { position: 3, fault: Fault::UnrecognizedCharacter('_') },
        ]
    );
    let outcome = lexer_with_recovery("##", Recovery::SkipCharacter);
    assert!(outcome.tokens.is_empty());
    assert_eq!(
        outcome.diagnostics,
        vec![
            Diagnostic { position: 0, fault: Fault::UnrecognizedCharacter('#') },
            Diagnostic { position: 1, fault: Fault::UnrecognizedCharacter('#') },
        ]
    );
}

#[test]
fn skipping_shortens_a_literal_until_it_fits() {
    let source = format!("{}0;", isize::MAX);
    let digits = source.chars().count() - 1;
    let outcome = lexer_with_recovery(&source, Recovery::SkipCharacter);
    assert_eq!(
        outcome.diagnostics,
        vec![Diagnostic { position: 0, fault: Fault::InvalidNumericLiteral }]
    );
    let value: isize = source[1..digits].parse().unwrap();
    assert_eq!(outcome.tokens, vec![TokenType::Constant(value), TokenType::Semicolon]);
}

#[test]
fn lexer_goes_on_behind_the_whole_numeric_run() {
    assert_eq!(lexer("007"), vec![TokenType::Constant(7)]);
    assert_eq!(lexer("007;"), vec![TokenType::Constant(7), TokenType::Semicolon]);
    assert_eq!(
        lexer("000 10"),
        vec![TokenType::Constant(0), TokenType::Whitespace(1), TokenType::Constant(10)]
    );
    assert_eq!(lexer("100200"), vec![TokenType::Constant(100200)]);
    assert_eq!(
        lexer("0x"),
        vec![TokenType::Constant(0), TokenType::Identifier(String::from("x"))]
    );
    let outcome = lexer_with_recovery("0042 #", Recovery::Stop);
    assert_eq!(outcome.tokens, vec![TokenType::Constant(42), TokenType::Whitespace(1)]);
    assert_eq!(
        outcome.diagnostics,
        vec![Diagnostic { position: 5, fault: Fault::UnrecognizedCharacter('#') }]
    );
}

#[test]
fn runs_are_taken_whole() {
    for source in ["007 12  x9 y", "a1b2 0012;;", "int x = 00100 | stats count by host \n"] {
        let tokens = lexer(source);
        for pair in tokens.windows(2) {
            match (&pair[0], &pair[1]) {
                (TokenType::Whitespace(_), TokenType::Whitespace(_)) => panic!("{}", source),
                (TokenType::Constant(_), TokenType::Constant(_)) => panic!("{}", source),
                (TokenType::Identifier(_), TokenType::Identifier(_)) => panic!("{}", source),
                (TokenType::Identifier(_), TokenType::Constant(_)) => panic!("{}", source),
                _ => {},
            }
        }
    }
}

#[test]
fn keyword_delimiter_stays_in_the_text() {
    assert_eq!(lexer("return;"), vec![TokenType::ReturnKeyword, TokenType::Semicolon]);
    assert_eq!(lexer("by "), vec![TokenType::ByKeyword, TokenType::Whitespace(1)]);
    assert_eq!(lexer("by"), vec![TokenType::Identifier(String::from("by"))]);
}

#[test]
fn widths_add_up_to_the_length_of_a_complete_text() {
    for source in [
        "int main() { return 365; }",
        "| stats count by host",
        "7 0 10",
        "  \t\n",
        "x",
        "",
        "h\u{e9}llo\u{a0}w\u{f6}rld \u{4eac}\u{90fd} = 12;",
    ] {
        let outcome = lexer_with_recovery(source, Recovery::Stop);
        assert!(outcome.diagnostics.is_empty());
        assert_eq!(total_width(&outcome.tokens), source.chars().count());
        assert_eq!(total_width(&lexer(source)), source.chars().count());
    }
}

#[test]
fn widths_fall_short_of_a_run_with_zeros_in_front() {
    let outcome = lexer_with_recovery("007 000 10", Recovery::Stop);
    assert!(outcome.diagnostics.is_empty());
    assert_eq!(outcome.tokens.len(), 5);
    assert_eq!(total_width(&outcome.tokens), 1 + 1 + 1 + 1 + 2);
}

#[test]
fn widths_add_up_to_the_position_of_the_fault() {
    for (source, position) in [("int x # rest", 6), ("#", 0), ("a\u{a0}\u{e9} -1", 4), ("12 99999999999999999999999", 3)] {
        let outcome = lexer_with_recovery(source, Recovery::Stop);
        assert_eq!(total_width(&outcome.tokens), position);
        assert_eq!(outcome.diagnostics.len(), 1);
        assert_eq!(outcome.diagnostics[0].position, position);
    }
}
