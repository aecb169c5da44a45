use sprunk::lexer::lexer;
use sprunk::lookahead::Cursor;
use sprunk::pipeline::{clause_ahead, without_whitespace, Clause};
use sprunk::token::TokenType;
use sprunk::MultiPeekCheckExt;

fn stats_count() -> [TokenType; 3] {
    [TokenType::Pipe, TokenType::StatsKeyword, TokenType::CountKeyword]
}

#[test]
fn empty_pattern_always_matches() {
    let tokens = vec![TokenType::Pipe, TokenType::ByKeyword];
    let mut cursor = Cursor::new(&tokens);
    assert!(cursor.multi_peek_check(&[]));
    assert_eq!(cursor.next(), Some(&TokenType::Pipe));
    assert!(cursor.multi_peek_check(&[]));
    assert_eq!(cursor.next(), Some(&TokenType::ByKeyword));
    assert!(cursor.multi_peek_check(&[]));
    assert_eq!(cursor.next(), None);
    assert!(cursor.multi_peek_check(&[]));
    let none: Vec<TokenType> = Vec::new();
    assert!(Cursor::new(&none).multi_peek_check(&[]));
}

#[test]
fn pattern_longer_than_the_rest_never_matches() {
    let tokens = vec![TokenType::Pipe, TokenType::StatsKeyword];
    let mut cursor = Cursor::new(&tokens);
    assert!(!cursor.multi_peek_check(&stats_count()));
    assert!(cursor.multi_peek_check(&[TokenType::Pipe, TokenType::StatsKeyword]));
    cursor.next();
    assert!(!cursor.multi_peek_check(&[TokenType::StatsKeyword, TokenType::CountKeyword]));
    cursor.next();
    assert!(!cursor.multi_peek_check(&[TokenType::Pipe]));
    let none: Vec<TokenType> = Vec::new();
    assert!(!Cursor::new(&none).multi_peek_check(&[TokenType::Pipe]));
}

#[test]
fn lookahead_does_not_advance_the_cursor() {
    let tokens = vec![TokenType::Pipe, TokenType::StatsKeyword, TokenType::CountKeyword];
    let mut cursor = Cursor::new(&tokens);
    assert!(cursor.multi_peek_check(&stats_count()));
    assert!(cursor.multi_peek_check(&stats_count()));
    assert!(!cursor.multi_peek_check(&[TokenType::Pipe, TokenType::ByKeyword]));
    assert_eq!(cursor.next(), Some(&TokenType::Pipe));
    assert_eq!(cursor.next(), Some(&TokenType::StatsKeyword));
    assert_eq!(cursor.next(), Some(&TokenType::CountKeyword));
    assert_eq!(cursor.next(), None);
    assert_eq!(cursor.next(), None);
}

#[test]
fn lookahead_compares_data() {
    let tokens = vec![
        TokenType::Identifier(String::from("x")),
        TokenType::Equals,
        TokenType::Constant(10),
    ];
    let mut cursor = Cursor::new(&tokens);
    assert!(cursor.multi_peek_check(&[TokenType::Identifier(String::from("x"))]));
    assert!(!cursor.multi_peek_check(&[TokenType::Identifier(String::from("y"))]));
    assert!(!cursor.multi_peek_check(&[TokenType::Value(String::from("x"))]));
    assert!(cursor.multi_peek_check(&[
        TokenType::Identifier(String::from("x")),
        TokenType::Equals,
        TokenType::Constant(10),
    ]));
    assert!(!cursor.multi_peek_check(&[
        TokenType::Identifier(String::from("x")),
        TokenType::Equals,
        TokenType::Constant(11),
    ]));
}

#[test]
fn lookahead_on_other_items() {
    let numbers = [1, 2, 3, 4];
    let mut cursor = Cursor::new(&numbers);
    assert!(cursor.multi_peek_check(&[1, 2]));
    assert!(!cursor.multi_peek_check(&[2, 3]));
    assert_eq!(cursor.next(), Some(&1));
    assert!(cursor.multi_peek_check(&[2, 3, 4]));
    assert!(!cursor.multi_peek_check(&[2, 3, 4, 5]));
}

#[test]
fn copy_of_a_cursor_advances_alone() {
    let tokens = vec![TokenType::Pipe, TokenType::ByKeyword];
    let mut cursor = Cursor::new(&tokens);
    let mut copy = cursor;
    assert_eq!(copy.next(), Some(&TokenType::Pipe));
    assert_eq!(copy.next(), Some(&TokenType::ByKeyword));
    assert_eq!(cursor.next(), Some(&TokenType::Pipe));
    let mut second = cursor.clone();
    assert_eq!(second.next(), Some(&TokenType::ByKeyword));
    assert_eq!(second.next(), None);
    assert_eq!(cursor.next(), Some(&TokenType::ByKeyword));
}

#[test]
fn pipe_stats_count_matches_at_the_start_only() {
    let tokens = without_whitespace(lexer("| stats count "));
    assert_eq!(tokens, stats_count());
    let mut cursor = Cursor::new(&tokens);
    assert!(cursor.multi_peek_check(&stats_count()));
    cursor.next();
    assert!(!cursor.multi_peek_check(&stats_count()));
}

#[test]
fn count_at_the_end_of_the_text_is_a_name() {
    let tokens = without_whitespace(lexer("| stats count"));
    assert_eq!(
        tokens,
        vec![
            TokenType::Pipe,
            TokenType::StatsKeyword,
            TokenType::Identifier(String::from("count")),
        ]
    );
    let mut cursor = Cursor::new(&tokens);
    assert!(!cursor.multi_peek_check(&stats_count()));
    assert!(cursor.multi_peek_check(&[TokenType::Pipe, TokenType::StatsKeyword]));
}

#[test]
fn without_whitespace_keeps_the_other_tokens_in_order() {
    let tokens = vec![
        TokenType::Whitespace(2),
        TokenType::Pipe,
        TokenType::Whitespace(1),
        TokenType::Whitespace(0),
        TokenType::Identifier(String::from("x")),
        TokenType::Empty,
        TokenType::Whitespace(7),
    ];
    assert_eq!(
        without_whitespace(tokens),
        vec![TokenType::Pipe, TokenType::Identifier(String::from("x")), TokenType::Empty]
    );
    assert_eq!(without_whitespace(Vec::new()), Vec::<TokenType>::new());
    assert_eq!(
        without_whitespace(vec![TokenType::Whitespace(1), TokenType::Whitespace(2)]),
        Vec::<TokenType>::new()
    );
}

#[test]
fn clause_is_told_by_the_tokens_ahead() {
    let tokens = without_whitespace(lexer("| stats count by host | by x "));
    let mut cursor = Cursor::new(&tokens);
    assert_eq!(clause_ahead(&mut cursor), Clause::StatsCount);
    assert_eq!(cursor.next(), Some(&TokenType::Pipe));
    assert_eq!(clause_ahead(&mut cursor), Clause::Unknown);
    cursor.next();
    cursor.next();
    cursor.next();
    cursor.next();
    assert_eq!(clause_ahead(&mut cursor), Clause::By);
    assert_eq!(cursor.next(), Some(&TokenType::Pipe));
    assert_eq!(clause_ahead(&mut cursor), Clause::Unknown);
    let none: Vec<TokenType> = Vec::new();
    assert_eq!(clause_ahead(&mut Cursor::new(&none)), Clause::Unknown);
    let pipe = vec![TokenType::Pipe];
    assert_eq!(clause_ahead(&mut Cursor::new(&pipe)), Clause::Unknown);
}
