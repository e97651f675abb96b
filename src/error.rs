//! The ways a compilation fails.
use vstd::prelude::*;
use crate::lexer::TokenKind;

verus! {

/// Why a source text could not be compiled.
#[derive(Debug)]
pub enum CompileError {
    /// A character that starts no token, and its position (counted in
    /// characters from the start of the source).
    LexError { character: char, position: usize },
    /// A token that the grammar does not allow where it stands.
    SyntaxError { found: TokenKind, literal: String },
}

/// A compile error as a mathematical value.
pub enum Failure {
    Lex { character: char, position: int },
    Syntax { found: TokenKind, literal: Seq<char> },
}

impl View for CompileError {
    type V = Failure;

    open spec fn view(&self) -> Failure {
        match self {
            CompileError::LexError { character, position } => Failure::Lex {
                character: *character,
                position: *position as int,
            },
            CompileError::SyntaxError { found, literal } => Failure::Syntax {
                found: *found,
                literal: literal@,
            },
        }
    }
}

} // verus!
