//! The language as mathematics: the token stream of a source text, the
//! grammar over it, and what a compilation of the text yields.
use vstd::prelude::*;
use crate::ast::{StatementModel, program_sql};
use crate::error::Failure;
use crate::lexer::{Scan, TokenKind, TokenModel, lemma_scan_bounds, scan, token_model};

verus! {

/// The tokens of a text up to its end or to the first character that
/// starts no token, and the position of that character, if any.
pub struct Stream {
    pub tokens: Seq<TokenModel>,
    pub fault: Option<int>,
}

/// The token stream read from position `pos` on.
pub open spec fn stream_from(s: Seq<char>, pos: int) -> Stream
    decreases s.len() - pos,
    via stream_from_decreases
{
    if !(0 <= pos <= s.len()) {
        Stream { tokens: Seq::empty(), fault: None }
    } else {
        match scan(s, pos) {
            Scan::Read { token, next } => if token.kind == TokenKind::EndOfInput {
                Stream { tokens: Seq::empty(), fault: None }
            } else {
                let rest = stream_from(s, next);
                Stream { tokens: seq![token] + rest.tokens, fault: rest.fault }
            },
            Scan::Fault { at } => Stream { tokens: Seq::empty(), fault: Some(at) },
        }
    }
}

#[via_fn]
proof fn stream_from_decreases(s: Seq<char>, pos: int) {
    if 0 <= pos <= s.len() {
        lemma_scan_bounds(s, pos);
    }
}

/// The token stream of a whole text.
pub open spec fn stream(s: Seq<char>) -> Stream {
    stream_from(s, 0)
}

/// The `i`-th token; past the last one, the end of input.
pub open spec fn token_at(t: Seq<TokenModel>, i: int) -> TokenModel {
    if 0 <= i < t.len() {
        t[i]
    } else {
        token_model(TokenKind::EndOfInput, Seq::empty())
    }
}

/// How many identifier tokens follow one another from index `i` on.
pub open spec fn identifier_run(t: Seq<TokenModel>, i: int) -> nat
    decreases t.len() - i,
{
    if 0 <= i < t.len() && t[i].kind == TokenKind::Identifier {
        1 + identifier_run(t, i + 1)
    } else {
        0
    }
}

// Each parse below starts at a token index. It yields the value read and
// the index of the token after it, or the index of the token that the
// grammar does not allow there.

/// identifier
pub open spec fn parse_identifier(t: Seq<TokenModel>, i: int) -> Result<(Seq<char>, int), int> {
    if token_at(t, i).kind == TokenKind::Identifier {
        Ok((t[i].literal, i + 1))
    } else {
        Err(i)
    }
}

/// '{' identifier* '}'
pub open spec fn parse_block(t: Seq<TokenModel>, i: int) -> Result<(Seq<Seq<char>>, int), int> {
    let close = i + 1 + identifier_run(t, i + 1);
    if token_at(t, i).kind != TokenKind::LeftBrace {
        Err(i)
    } else if token_at(t, close).kind != TokenKind::RightBrace {
        Err(close)
    } else {
        Ok((t.subrange(i + 1, close).map_values(|m: TokenModel| m.literal), close + 1))
    }
}

/// '.' identifier block
pub open spec fn parse_query(t: Seq<TokenModel>, i: int) -> Result<(StatementModel, int), int> {
    if token_at(t, i).kind != TokenKind::Dot {
        Err(i)
    } else {
        match parse_identifier(t, i + 1) {
            Err(j) => Err(j),
            Ok((table, k)) => match parse_block(t, k) {
                Err(j) => Err(j),
                Ok((columns, next)) => Ok((StatementModel::Query { table, columns }, next)),
            },
        }
    }
}

/// query | block
pub open spec fn parse_statement(t: Seq<TokenModel>, i: int) -> Result<(StatementModel, int), int> {
    if token_at(t, i).kind == TokenKind::Dot {
        parse_query(t, i)
    } else if token_at(t, i).kind == TokenKind::LeftBrace {
        match parse_block(t, i) {
            Err(j) => Err(j),
            Ok((columns, next)) => Ok((StatementModel::Block { columns }, next)),
        }
    } else {
        Err(i)
    }
}

/// statement* end-of-input; on success the index is that of the end of input.
pub open spec fn parse_program(t: Seq<TokenModel>, i: int) -> Result<(Seq<StatementModel>, int), int>
    decreases t.len() - i,
{
    if token_at(t, i).kind == TokenKind::EndOfInput {
        Ok((Seq::empty(), i))
    } else {
        match parse_statement(t, i) {
            Err(j) => Err(j),
            Ok((first, next)) => match parse_program(t, next) {
                Err(j) => Err(j),
                Ok((rest, end)) => Ok((seq![first] + rest, end)),
            },
        }
    }
}

/// Tokens are read one ahead of the parse: the parse reaches token `j` only
/// once token `j + 1` has been read too.
pub open spec fn reached(s: Seq<char>, j: int) -> bool {
    stream(s).fault is None || j + 1 < stream(s).tokens.len()
}

/// The error for the character that starts no token.
pub open spec fn lex_failure(s: Seq<char>) -> Failure {
    let at = stream(s).fault->0;
    Failure::Lex { character: s[at], position: at }
}

/// The error for a token that the grammar does not allow.
pub open spec fn syntax_failure(s: Seq<char>, j: int) -> Failure {
    let tok = token_at(stream(s).tokens, j);
    Failure::Syntax { found: tok.kind, literal: tok.literal }
}

/// What a parse of `s` that ended as `r` reports: a token the parse stopped
/// at, or the first character that starts no token, whichever is met first.
pub open spec fn report<A>(s: Seq<char>, r: Result<(A, int), int>) -> Result<A, Failure> {
    match r {
        Ok((v, next)) => if reached(s, next) {
            Ok(v)
        } else {
            Err(lex_failure(s))
        },
        Err(j) => if reached(s, j) {
            Err(syntax_failure(s, j))
        } else {
            Err(lex_failure(s))
        },
    }
}

/// The statements of a source text, or the first error met in it.
pub open spec fn parse_source(s: Seq<char>) -> Result<Seq<StatementModel>, Failure> {
    report(s, parse_program(stream(s).tokens, 0))
}

/// The SQL text that a source text compiles to, or the first error met in it.
pub open spec fn compile_source(s: Seq<char>) -> Result<Seq<char>, Failure> {
    match parse_source(s) {
        Ok(statements) => Ok(program_sql(statements)),
        Err(e) => Err(e),
    }
}

/// A parse never moves backwards: it ends, or stops, at or after the
/// index it started from.
pub proof fn lemma_parse_moves_forward(t: Seq<TokenModel>, i: int)
    ensures
        parse_identifier(t, i) matches Ok((_, next)) ==> next == i + 1,
        parse_identifier(t, i) matches Err(j) ==> j == i,
        parse_block(t, i) matches Ok((_, next)) ==> next > i,
        parse_block(t, i) matches Err(j) ==> j >= i,
        parse_query(t, i) matches Ok((_, next)) ==> next > i,
        parse_query(t, i) matches Err(j) ==> j >= i,
        parse_statement(t, i) matches Ok((_, next)) ==> next > i,
        parse_statement(t, i) matches Err(j) ==> j >= i,
        parse_program(t, i) matches Ok((_, end)) ==> end >= i,
        parse_program(t, i) matches Err(j) ==> j >= i,
    decreases t.len() - i,
{
    if token_at(t, i).kind != TokenKind::EndOfInput {
        if let Ok((_, next)) = parse_statement(t, i) {
            lemma_parse_moves_forward(t, next);
        }
    }
}

/// Compilation is a function of the source text alone: equal texts give
/// the same SQL text, or the same error, on every run.
pub proof fn lemma_compile_deterministic(a: Seq<char>, b: Seq<char>)
    requires
        a == b,
    ensures
        compile_source(a) == compile_source(b),
{
}

} // verus!
