use dotql::error::CompileError;
use dotql::lexer::{Lexer, Token, TokenKind};

fn tok(kind: TokenKind, literal: &str) -> Token {
    Token { kind, literal: literal.to_string() }
}

fn lex_all(input: &str) -> Vec<Token> {
    let mut lexer = Lexer::new(input);
    let mut tokens = vec![];
    loop {
        let token = lexer.next_token().unwrap();
        tokens.push(token.clone());
        if token.kind == TokenKind::EndOfInput {
            break;
        }
    }
    tokens
}

fn check_tokens(input: &str, expected: Vec<Token>) {
    let tokens = lex_all(input);
    expected.iter().zip(tokens.iter()).for_each(|(expected, result)| {
        assert_eq!(expected.kind, result.kind);
        assert_eq!(expected.literal, result.literal);
    });
}

#[test]
fn dot_statement() {
    check_tokens(
        ".users {}",
        vec![
            tok(TokenKind::Dot, "."),
            tok(TokenKind::Identifier, "users"),
            tok(TokenKind::LeftBrace, "{"),
            tok(TokenKind::RightBrace, "}"),
        ],
    );
}

#[test]
fn block_statement() {
    check_tokens(
        ".users { name, id }",
        vec![
            tok(TokenKind::Dot, "."),
            tok(TokenKind::Identifier, "users"),
            tok(TokenKind::LeftBrace, "{"),
            tok(TokenKind::Identifier, "name"),
            tok(TokenKind::Identifier, "id"),
            tok(TokenKind::RightBrace, "}"),
        ],
    );
}

#[test]
fn joint_dot_statement() {
    check_tokens(
        ".users .posts {}",
        vec![
            tok(TokenKind::Dot, "."),
            tok(TokenKind::Identifier, "users"),
            tok(TokenKind::Dot, "."),
            tok(TokenKind::Identifier, "posts"),
            tok(TokenKind::LeftBrace, "{"),
            tok(TokenKind::RightBrace, "}"),
        ],
    );
}

#[test]
fn full_token_stream_has_end_marker() {
    let tokens = lex_all(".users { name, id }");
    let kinds: Vec<TokenKind> = tokens.iter().map(|t| t.kind).collect();
    assert_eq!(
        kinds,
        vec![
            TokenKind::Dot,
            TokenKind::Identifier,
            TokenKind::LeftBrace,
            TokenKind::Identifier,
            TokenKind::Identifier,
            TokenKind::RightBrace,
            TokenKind::EndOfInput,
        ]
    );
    assert_eq!(tokens[6].literal, "");
}

#[test]
fn end_of_input_repeats() {
    let mut lexer = Lexer::new(".t {}  \n");
    for _ in 0..4 {
        lexer.next_token().unwrap();
    }
    for _ in 0..5 {
        let token = lexer.next_token().unwrap();
        assert_eq!(token.kind, TokenKind::EndOfInput);
        assert_eq!(token.literal, "");
    }
}

#[test]
fn empty_input_is_end_of_input() {
    let mut lexer = Lexer::new("");
    assert_eq!(lexer.next_token().unwrap().kind, TokenKind::EndOfInput);
    assert_eq!(lexer.next_token().unwrap().kind, TokenKind::EndOfInput);
}

#[test]
fn identifier_directly_before_brace() {
    let tokens = lex_all(".t{abc}");
    let kinds: Vec<TokenKind> = tokens.iter().map(|t| t.kind).collect();
    assert_eq!(
        kinds,
        vec![
            TokenKind::Dot,
            TokenKind::Identifier,
            TokenKind::LeftBrace,
            TokenKind::Identifier,
            TokenKind::RightBrace,
            TokenKind::EndOfInput,
        ]
    );
    assert_eq!(tokens[1].literal, "t");
    assert_eq!(tokens[3].literal, "abc");
}

#[test]
fn digit_is_a_lex_error() {
    let mut lexer = Lexer::new(".users { 123 }");
    for _ in 0..3 {
        lexer.next_token().unwrap();
    }
    match lexer.next_token() {
        Err(CompileError::LexError { character, position }) => {
            assert_eq!(character, '1');
            assert_eq!(position, 9);
        }
        other => panic!("expected a lex error, got {:?}", other),
    }
}

#[test]
fn read_identifier_stops_at_non_letter() {
    let mut lexer = Lexer::new("name_id");
    assert_eq!(lexer.read_identifier(), "name");
    let token = lexer.next_token();
    assert!(matches!(token, Err(CompileError::LexError { character: '_', position: 4 })));
}

#[test]
fn skip_whitespace_skips_commas_and_blanks() {
    let mut lexer = Lexer::new(" ,\t\r\n, x");
    lexer.skip_whitespace();
    let token = lexer.next_token().unwrap();
    assert_eq!(token.kind, TokenKind::Identifier);
    assert_eq!(token.literal, "x");
}

#[test]
fn read_char_moves_one_character() {
    let mut lexer = Lexer::new("ab");
    lexer.read_char();
    assert_eq!(lexer.next_token().unwrap().literal, "b");
    lexer.read_char();
    assert_eq!(lexer.next_token().unwrap().kind, TokenKind::EndOfInput);
}
