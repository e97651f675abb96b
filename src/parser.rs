//! The recursive-descent parser, reading tokens one ahead.
use vstd::prelude::*;
use crate::ast::{BlockStatement, DotStatement, IdentifierStatement, Statement, StatementModel};
use crate::error::{CompileError, Failure};
use crate::grammar;
use crate::grammar::{Stream, reached, report, stream, stream_from, token_at};
use crate::lexer::{Lexer, Scan, Token, TokenKind, TokenModel, lemma_scan_bounds, scan};
use crate::program::Program;

verus! {

/// The parser: a lexer, the token under the cursor and the one after it.
pub struct Parser {
    lexer: Lexer,
    current_token: Token,
    peek_token: Token,
    /// The index of `current_token` in the source's token stream.
    index: Ghost<int>,
}

/// One step of the token stream: the token read at `p` and the rest.
proof fn lemma_stream_step(s: Seq<char>, p: int)
    requires
        0 <= p <= s.len(),
    ensures
        match scan(s, p) {
            Scan::Read { token, next } => {
                &&& p <= next <= s.len()
                &&& token.kind == TokenKind::EndOfInput ==> next == s.len() && stream_from(s, p) == (
                Stream { tokens: Seq::empty(), fault: None })
                &&& token.kind != TokenKind::EndOfInput ==> stream_from(s, p) == (Stream {
                    tokens: seq![token] + stream_from(s, next).tokens,
                    fault: stream_from(s, next).fault,
                })
            },
            Scan::Fault { at } => {
                &&& p <= at < s.len()
                &&& stream_from(s, p) == (Stream { tokens: Seq::empty(), fault: Some(at) })
            },
        },
        p == s.len() ==> scan(s, p) == (Scan::Read {
            token: crate::lexer::token_model(TokenKind::EndOfInput, Seq::empty()),
            next: p,
        }),
{
    lemma_scan_bounds(s, p);
}

/// The error for a token that is out of place.
fn unexpected(tok: &Token) -> (e: CompileError)
    ensures
        e@ == (Failure::Syntax { found: tok.kind, literal: tok@.literal }),
{
    CompileError::SyntaxError { found: tok.kind, literal: tok.literal.clone() }
}

impl Parser {
    pub closed spec fn source(&self) -> Seq<char> {
        self.lexer.source()
    }

    pub closed spec fn tokens(&self) -> Seq<TokenModel> {
        stream(self.source()).tokens
    }

    pub closed spec fn index(&self) -> int {
        self.index@
    }

    pub closed spec fn wf(&self) -> bool {
        let s = self.source();
        let t = self.tokens();
        let i = self.index@;
        &&& self.lexer.wf()
        &&& 0 <= self.lexer.cursor() <= s.len()
        &&& 0 <= i
        &&& reached(s, i)
        &&& self.current_token@ == token_at(t, i)
        &&& self.peek_token@ == token_at(t, i + 1)
        &&& i + 2 <= t.len() ==> stream_from(s, self.lexer.cursor()) == (Stream {
            tokens: t.subrange(i + 2, t.len() as int),
            fault: stream(s).fault,
        })
        &&& i + 2 > t.len() ==> self.lexer.cursor() == s.len() && stream(s).fault is None
    }

    /// Reads the first two tokens of `input`.
    pub fn new(input: &str) -> (r: Result<Parser, CompileError>)
        ensures
            match r {
                Ok(p) => p.wf() && p.source() == input@ && p.tokens() == stream(input@).tokens && p.index() == 0,
                Err(e) => !reached(input@, 0) && e@ == grammar::lex_failure(input@),
            },
    {
        let mut lexer = Lexer::new(input);
        let ghost s = input@;
        proof {
            lemma_stream_step(s, 0);
        }
        let current_token = match lexer.next_token() {
            Ok(tok) => tok,
            Err(e) => return Err(e),
        };
        let ghost p1 = lexer.cursor();
        proof {
            lemma_stream_step(s, p1);
        }
        let peek_token = match lexer.next_token() {
            Ok(tok) => tok,
            Err(e) => return Err(e),
        };
        proof {
            let t = stream(s).tokens;
            if current_token.kind != TokenKind::EndOfInput && peek_token.kind != TokenKind::EndOfInput {
                assert(stream_from(s, lexer.cursor()).tokens =~= t.subrange(2, t.len() as int));
            }
        }
        Ok(Parser { lexer, current_token, peek_token, index: Ghost(0) })
    }

    /// Moves one token on: the token after the cursor comes under it and the
    /// lexer reads the next one.
    pub fn next_token(&mut self) -> (r: Result<(), CompileError>)
        requires
            old(self).wf(),
        ensures
            final(self).source() == old(self).source(),
            r is Ok <==> reached(old(self).source(), old(self).index() + 1),
            r is Ok ==> final(self).wf() && final(self).index() == old(self).index() + 1,
            r matches Err(e) ==> e@ == grammar::lex_failure(old(self).source()),
    {
        let ghost c0 = self.lexer.cursor();
        let ghost s = self.source();
        let ghost t = self.tokens();
        let ghost i = self.index@;
        proof {
            lemma_stream_step(s, c0);
        }
        match self.lexer.next_token() {
            Ok(tok) => {
                self.current_token = self.peek_token.clone();
                self.peek_token = tok;
                self.index = Ghost(i + 1);
                proof {
                    if i + 2 < t.len() {
                        let rest = stream_from(s, self.lexer.cursor());
                        assert(stream_from(s, c0).tokens == seq![tok@] + rest.tokens);
                        assert((seq![tok@] + rest.tokens).drop_first() =~= rest.tokens);
                        assert(t.subrange(i + 2, t.len() as int).drop_first() =~= t.subrange(i + 3, t.len() as int));
                        assert(rest.tokens =~= t.subrange(i + 3, t.len() as int));
                        assert(t[i + 2] == t.subrange(i + 2, t.len() as int)[0]);
                    }
                }
                Ok(())
            },
            Err(e) => Err(e),
        }
    }

    /// Reads an identifier: the table name of a query or a column name.
    pub fn parse_identifier(&mut self) -> (r: Result<IdentifierStatement, CompileError>)
        requires
            old(self).wf(),
        ensures
            final(self).source() == old(self).source(),
            match r {
                Ok(v) => {
                    &&& report(old(self).source(), grammar::parse_identifier(old(self).tokens(), old(self).index()))
                        == Ok::<_, Failure>(v@)
                    &&& final(self).wf()
                    &&& final(self).index() == grammar::parse_identifier(old(self).tokens(), old(self).index())->Ok_0.1
                },
                Err(e) => report(old(self).source(), grammar::parse_identifier(old(self).tokens(), old(self).index()))
                    == Err::<Seq<char>, _>(e@),
            },
    {
        if self.current_token.kind != TokenKind::Identifier {
            return Err(unexpected(&self.current_token));
        }
        let ident = IdentifierStatement { literal: self.current_token.literal.clone() };
        match self.next_token() {
            Ok(()) => Ok(ident),
            Err(e) => Err(e),
        }
    }

    /// Reads a braced list of identifiers, commas between them skipped.
    pub fn parse_block_statement(&mut self) -> (r: Result<BlockStatement, CompileError>)
        requires
            old(self).wf(),
        ensures
            final(self).source() == old(self).source(),
            match r {
                Ok(v) => {
                    &&& report(old(self).source(), grammar::parse_block(old(self).tokens(), old(self).index()))
                        == Ok::<_, Failure>(v@)
                    &&& final(self).wf()
                    &&& final(self).index() == grammar::parse_block(old(self).tokens(), old(self).index())->Ok_0.1
                },
                Err(e) => report(old(self).source(), grammar::parse_block(old(self).tokens(), old(self).index()))
                    == Err::<Seq<Seq<char>>, _>(e@),
            },
    {
        let ghost s = self.source();
        let ghost t = self.tokens();
        let ghost start = self.index@;
        if self.current_token.kind != TokenKind::LeftBrace {
            return Err(unexpected(&self.current_token));
        }
        proof {
            grammar::lemma_parse_moves_forward(t, start);
        }
        match self.next_token() {
            Ok(()) => {},
            Err(e) => return Err(e),
        }
        let mut properties: Vec<IdentifierStatement> = Vec::new();
        while self.current_token.kind == TokenKind::Identifier
            invariant
                self.wf(),
                s == old(self).source(),
                t == old(self).tokens(),
                start == old(self).index(),
                self.source() == s,
                self.tokens() == t,
                self.index() == start + 1 + properties.len(),
                properties@.map_values(|p: IdentifierStatement| p@) =~= t.subrange(start + 1, self.index()).map_values(
                    |m: TokenModel| m.literal,
                ),
                grammar::identifier_run(t, start + 1) == properties.len() + grammar::identifier_run(t, self.index()),
                token_at(t, start).kind == TokenKind::LeftBrace,
            decreases t.len() - self.index(),
        {
            let ghost i = self.index();
            let ghost before = properties@.map_values(|p: IdentifierStatement| p@);
            let ident = match self.parse_identifier() {
                Ok(ident) => ident,
                Err(e) => return Err(e),
            };
            properties.push(ident);
            proof {
                assert(properties@.map_values(|p: IdentifierStatement| p@) =~= before.push(t[i].literal));
                assert(t.subrange(start + 1, i + 1).map_values(|m: TokenModel| m.literal) =~= t.subrange(
                    start + 1,
                    i,
                ).map_values(|m: TokenModel| m.literal).push(t[i].literal));
            }
        }
        if self.current_token.kind != TokenKind::RightBrace {
            return Err(unexpected(&self.current_token));
        }
        match self.next_token() {
            Ok(()) => Ok(BlockStatement { properties }),
            Err(e) => Err(e),
        }
    }

    /// Reads a query: a dot, the table name and its block.
    pub fn parse_dot(&mut self) -> (r: Result<DotStatement, CompileError>)
        requires
            old(self).wf(),
        ensures
            final(self).source() == old(self).source(),
            match r {
                Ok(v) => {
                    &&& report(old(self).source(), grammar::parse_query(old(self).tokens(), old(self).index()))
                        == Ok::<_, Failure>(v@)
                    &&& final(self).wf()
                    &&& final(self).index() == grammar::parse_query(old(self).tokens(), old(self).index())->Ok_0.1
                },
                Err(e) => report(old(self).source(), grammar::parse_query(old(self).tokens(), old(self).index()))
                    == Err::<StatementModel, _>(e@),
            },
    {
        let ghost t = self.tokens();
        let ghost start = self.index@;
        if self.current_token.kind != TokenKind::Dot {
            return Err(unexpected(&self.current_token));
        }
        proof {
            grammar::lemma_parse_moves_forward(t, start + 1);
            if let Ok((_, k)) = grammar::parse_identifier(t, start + 1) {
                grammar::lemma_parse_moves_forward(t, k);
            }
        }
        match self.next_token() {
            Ok(()) => {},
            Err(e) => return Err(e),
        }
        let ident = match self.parse_identifier() {
            Ok(ident) => ident,
            Err(e) => return Err(e),
        };
        let block = match self.parse_block_statement() {
            Ok(block) => block,
            Err(e) => return Err(e),
        };
        Ok(DotStatement { ident, block })
    }

    /// Reads one statement: a query, or a block standing alone.
    pub fn parse_statement(&mut self) -> (r: Result<Statement, CompileError>)
        requires
            old(self).wf(),
        ensures
            final(self).source() == old(self).source(),
            match r {
                Ok(v) => {
                    &&& report(old(self).source(), grammar::parse_statement(old(self).tokens(), old(self).index()))
                        == Ok::<_, Failure>(v@)
                    &&& final(self).wf()
                    &&& final(self).index() == grammar::parse_statement(old(self).tokens(), old(self).index())->Ok_0.1
                },
                Err(e) => report(old(self).source(), grammar::parse_statement(old(self).tokens(), old(self).index()))
                    == Err::<StatementModel, _>(e@),
            },
    {
        if self.current_token.kind == TokenKind::Dot {
            match self.parse_dot() {
                Ok(d) => Ok(Statement::Dot(d)),
                Err(e) => Err(e),
            }
        } else if self.current_token.kind == TokenKind::LeftBrace {
            match self.parse_block_statement() {
                Ok(b) => Ok(Statement::Block(b)),
                Err(e) => Err(e),
            }
        } else {
            Err(unexpected(&self.current_token))
        }
    }

    /// Reads statements up to the end of input.
    pub fn run(&mut self) -> (r: Result<Program, CompileError>)
        requires
            old(self).wf(),
        ensures
            match r {
                Ok(p) => report(old(self).source(), grammar::parse_program(old(self).tokens(), old(self).index()))
                    == Ok::<_, Failure>(p@),
                Err(e) => report(old(self).source(), grammar::parse_program(old(self).tokens(), old(self).index()))
                    == Err::<Seq<StatementModel>, _>(e@),
            },
    {
        let ghost s = self.source();
        let ghost t = self.tokens();
        let ghost start = self.index@;
        let mut statements: Vec<Statement> = Vec::new();
        while self.current_token.kind != TokenKind::EndOfInput
            invariant
                s == old(self).source(),
                t == old(self).tokens(),
                start == old(self).index(),
                self.wf(),
                self.source() == s,
                self.tokens() == t,
                start <= self.index(),
                match grammar::parse_program(t, self.index()) {
                    Ok((rest, end)) => grammar::parse_program(t, start) == Ok::<_, int>(
                        (statements@.map_values(|st: Statement| st@) + rest, end),
                    ),
                    Err(j) => grammar::parse_program(t, start) == Err::<(Seq<StatementModel>, int), _>(j),
                },
            decreases t.len() - self.index(),
        {
            let ghost i = self.index();
            let ghost before = statements@.map_values(|st: Statement| st@);
            proof {
                if let Ok((_, next)) = grammar::parse_statement(t, i) {
                    grammar::lemma_parse_moves_forward(t, next);
                }
            }
            let statement = match self.parse_statement() {
                Ok(statement) => statement,
                Err(e) => return Err(e),
            };
            statements.push(statement);
            proof {
                let after = statements@.map_values(|st: Statement| st@);
                assert(after =~= before.push(statement@));
                if let Ok((rest, end)) = grammar::parse_program(t, self.index()) {
                    assert(before + (seq![statement@] + rest) =~= after + rest);
                }
            }
        }
        Ok(Program { statements })
    }
}

} // verus!
