//! The top level: a program of statements, built from source text and
//! rendered as SQL.
use vstd::prelude::*;
use vstd::string::StringExecFns;
use crate::ast::{Statement, StatementModel, join, lemma_join_push, program_sql};
use crate::error::CompileError;
use crate::grammar::{compile_source, lemma_parse_moves_forward, parse_source, stream};
use crate::parser::Parser;

verus! {

/// The statements of a source text, in source order.
pub struct Program {
    pub statements: Vec<Statement>,
}

impl View for Program {
    type V = Seq<StatementModel>;

    open spec fn view(&self) -> Seq<StatementModel> {
        self.statements@.map_values(|st: Statement| st@)
    }
}

impl Program {
    /// Parses a whole source text; the first error met ends the parse.
    pub fn new(input: &str) -> (r: Result<Program, CompileError>)
        ensures
            match r {
                Ok(p) => parse_source(input@) == Ok::<_, crate::error::Failure>(p@),
                Err(e) => parse_source(input@) == Err::<Seq<StatementModel>, _>(e@),
            },
    {
        match Parser::new(input) {
            Ok(mut parser) => parser.run(),
            Err(e) => {
                proof {
                    lemma_parse_moves_forward(stream(input@).tokens, 0);
                }
                Err(e)
            },
        }
    }

    /// The SQL text of the program: each statement's text, joined by one space.
    pub fn run(&self) -> (r: String)
        ensures
            r@ == program_sql(self@),
    {
        let ghost texts = self@.map_values(|m: StatementModel| crate::ast::statement_sql(m));
        let mut out = String::new();
        let mut i: usize = 0;
        while i < self.statements.len()
            invariant
                i <= self.statements.len(),
                texts == self@.map_values(|m: StatementModel| crate::ast::statement_sql(m)),
                out@ == join(texts.take(i as int), " "@),
            decreases self.statements.len() - i,
        {
            let part = self.statements[i].eval();
            proof {
                lemma_join_push(texts.take(i as int), " "@, part@);
                assert(texts.take(i as int).push(part@) =~= texts.take(i + 1));
            }
            if i > 0 {
                out.append(" ");
            }
            out.append(part.as_str());
            i = i + 1;
        }
        assert(texts.take(i as int) =~= texts);
        out
    }
}

/// Compiles a source text into SQL, or returns the first error met in it.
pub fn compile(input: &str) -> (r: Result<String, CompileError>)
    ensures
        match r {
            Ok(sql) => compile_source(input@) == Ok::<_, crate::error::Failure>(sql@),
            Err(e) => compile_source(input@) == Err::<Seq<char>, _>(e@),
        },
{
    match Program::new(input) {
        Ok(program) => Ok(program.run()),
        Err(e) => Err(e),
    }
}

} // verus!
