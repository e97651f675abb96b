use dotql::ast::{BlockStatement, DotStatement, IdentifierStatement};
use dotql::error::CompileError;
use dotql::lexer::TokenKind;
use dotql::program::{compile, Program};

#[test]
fn test_run() {
    assert_eq!(Program::new(".users {}").unwrap().run(), "SELECT * FROM users;");
    assert_eq!(
        Program::new(
            ".users {
            name,
            id
        }"
        )
        .unwrap()
        .run(),
        "SELECT name, id FROM users;"
    );
}

#[test]
fn empty_block_selects_all() {
    assert_eq!(compile(".users {}").unwrap(), "SELECT * FROM users;");
}

#[test]
fn columns_keep_order_and_separator() {
    assert_eq!(compile(".users { name id }").unwrap(), "SELECT name, id FROM users;");
}

#[test]
fn commas_equal_spaces() {
    assert_eq!(compile(".users { name, id }").unwrap(), compile(".users { name id }").unwrap());
    assert_eq!(compile(".users { name, id }").unwrap(), "SELECT name, id FROM users;");
}

#[test]
fn statements_joined_by_one_space() {
    assert_eq!(
        compile(".users {} .posts {}").unwrap(),
        "SELECT * FROM users; SELECT * FROM posts;"
    );
}

#[test]
fn unterminated_block_is_syntax_error() {
    match compile(".users { name") {
        Err(CompileError::SyntaxError { found, literal }) => {
            assert_eq!(found, TokenKind::EndOfInput);
            assert_eq!(literal, "");
        }
        other => panic!("expected a syntax error, got {:?}", other),
    }
}

#[test]
fn digits_are_a_lex_error() {
    match compile(".users { 123 }") {
        Err(CompileError::LexError { character, position }) => {
            assert_eq!(character, '1');
            assert_eq!(position, 9);
        }
        other => panic!("expected a lex error, got {:?}", other),
    }
}

#[test]
fn compile_is_deterministic() {
    let src = ".users { name, id } { a } .posts {}";
    let first = compile(src).unwrap();
    let second = compile(src).unwrap();
    assert_eq!(first, second);
    assert_eq!(first, "SELECT name, id FROM users; a SELECT * FROM posts;");
}

#[test]
fn empty_program_is_empty_text() {
    assert_eq!(compile("").unwrap(), "");
    assert_eq!(compile("  \n ").unwrap(), "");
}

#[test]
fn query_without_block_is_syntax_error() {
    match compile(".users .posts {}") {
        Err(CompileError::SyntaxError { found, literal }) => {
            assert_eq!(found, TokenKind::Dot);
            assert_eq!(literal, ".");
        }
        other => panic!("expected a syntax error, got {:?}", other),
    }
}

#[test]
fn query_without_table_is_syntax_error() {
    match compile(". {}") {
        Err(CompileError::SyntaxError { found, .. }) => assert_eq!(found, TokenKind::LeftBrace),
        other => panic!("expected a syntax error, got {:?}", other),
    }
}

#[test]
fn stray_closing_brace_is_syntax_error() {
    match compile("} .a {}") {
        Err(CompileError::SyntaxError { found, literal }) => {
            assert_eq!(found, TokenKind::RightBrace);
            assert_eq!(literal, "}");
        }
        other => panic!("expected a syntax error, got {:?}", other),
    }
}

#[test]
fn lex_error_read_ahead_wins_over_syntax_error() {
    // the token after the misplaced brace is read before the brace is rejected
    match compile("} 7") {
        Err(CompileError::LexError { character, position }) => {
            assert_eq!(character, '7');
            assert_eq!(position, 2);
        }
        other => panic!("expected a lex error, got {:?}", other),
    }
}

#[test]
fn syntax_error_before_later_lex_error() {
    match compile("} a 7") {
        Err(CompileError::SyntaxError { found, .. }) => assert_eq!(found, TokenKind::RightBrace),
        other => panic!("expected a syntax error, got {:?}", other),
    }
}

#[test]
fn bare_block_statement_evaluates_to_column_list() {
    assert_eq!(compile("{ a, b }").unwrap(), "a, b");
}

#[test]
fn identifier_touching_brace() {
    assert_eq!(compile(".t{abc}").unwrap(), "SELECT abc FROM t;");
}

#[test]
fn empty_column_name_selects_all() {
    let dot = DotStatement {
        ident: IdentifierStatement { literal: "t".to_string() },
        block: BlockStatement { properties: vec![IdentifierStatement { literal: String::new() }] },
    };
    assert_eq!(dot.eval(), "SELECT * FROM t;");
}

#[test]
fn program_run_joins_statements() {
    let program = Program::new(".a {x} .b {y z}").unwrap();
    assert_eq!(program.statements.len(), 2);
    assert_eq!(program.run(), "SELECT x FROM a; SELECT y, z FROM b;");
}

#[test]
fn program_new_reports_first_error() {
    assert!(matches!(Program::new(".a { b"), Err(CompileError::SyntaxError { .. })));
    assert!(matches!(Program::new("#"), Err(CompileError::LexError { character: '#', position: 0 })));
}
