use editor_core::lexer::{tokenize, Lexer};
use editor_core::token::{get_kind, Token, TokenKind};

fn chars(s: &str) -> Vec<char> {
    s.chars().collect()
}

#[test]
fn classifier_covers_each_category() {
    assert_eq!(get_kind('a'), TokenKind::Word);
    assert_eq!(get_kind('Z'), TokenKind::Word);
    assert_eq!(get_kind('é'), TokenKind::Word);
    assert_eq!(get_kind('7'), TokenKind::Number);
    assert_eq!(get_kind(' '), TokenKind::Whitespace);
    assert_eq!(get_kind('\t'), TokenKind::Whitespace);
    assert_eq!(get_kind('\n'), TokenKind::NewLine);
    assert_eq!(get_kind('😀'), TokenKind::Emoji);
    assert_eq!(get_kind('!'), TokenKind::Other);
    assert_eq!(get_kind('_'), TokenKind::Other);
}

#[test]
fn three_byte_characters_are_other() {
    assert_eq!(get_kind('\u{3042}'), TokenKind::Other);
}

#[test]
fn token_accessors_return_construction_values() {
    let t = Token::new(TokenKind::Word, (2, 5));
    assert_eq!(t.kind(), TokenKind::Word);
    assert_eq!(t.position(), (2, 5));
}

#[test]
fn tokenize_splits_into_maximal_runs() {
    let ts = tokenize(&chars("ab 12"));
    assert_eq!(ts.len(), 3);
    assert_eq!(ts[0].kind(), TokenKind::Word);
    assert_eq!(ts[0].position(), (0, 1));
    assert_eq!(ts[1].kind(), TokenKind::Whitespace);
    assert_eq!(ts[1].position(), (2, 2));
    assert_eq!(ts[2].kind(), TokenKind::Number);
    assert_eq!(ts[2].position(), (3, 4));
}

#[test]
fn tokenize_empty_text_yields_no_tokens() {
    let ts = tokenize(&chars(""));
    assert!(ts.is_empty());
}

#[test]
fn tokenize_separates_newline_from_whitespace() {
    let ts = tokenize(&chars("a \nb"));
    let kinds: Vec<TokenKind> = ts.iter().map(|t| t.kind()).collect();
    assert_eq!(
        kinds,
        vec![
            TokenKind::Word,
            TokenKind::Whitespace,
            TokenKind::NewLine,
            TokenKind::Word
        ]
    );
}

#[test]
fn lexer_yields_tokens_one_by_one() {
    let mut lexer = Lexer::new(chars("hi 5")).expect("lexer");
    let t1 = lexer.next_token().expect("word token");
    assert_eq!(t1.kind(), TokenKind::Word);
    assert_eq!(t1.position(), (0, 1));
    let t2 = lexer.next_token().expect("whitespace token");
    assert_eq!(t2.kind(), TokenKind::Whitespace);
    let t3 = lexer.next_token().expect("number token");
    assert_eq!(t3.kind(), TokenKind::Number);
    assert_eq!(t3.position(), (3, 3));
    assert!(lexer.next_token().is_none());
}

#[test]
fn tokenize_positions_count_characters_not_bytes() {
    // 'ä' is two bytes but one character: positions stay character-based.
    let ts = tokenize(&chars("ää 1"));
    assert_eq!(ts[0].position(), (0, 1));
    assert_eq!(ts[1].position(), (2, 2));
    assert_eq!(ts[2].position(), (3, 3));
}
