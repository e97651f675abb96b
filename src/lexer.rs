//! The scanner: turns source characters into tokens.
use vstd::prelude::*;
use vstd::string::StrSliceExecFns;
use vstd::string::StringExecFns;
use crate::error::{CompileError, Failure};

verus! {

/// The closed set of token kinds.
#[derive(Clone, Copy, Debug, PartialEq, Eq, Structural)]
pub enum TokenKind {
    Dot,
    LeftBrace,
    RightBrace,
    Identifier,
    EndOfInput,
}

/// A token: its kind and the text it was read from.
#[derive(Debug)]
pub struct Token {
    pub kind: TokenKind,
    pub literal: String,
}

/// What a token is, as a mathematical value.
pub struct TokenModel {
    pub kind: TokenKind,
    pub literal: Seq<char>,
}

impl View for Token {
    type V = TokenModel;

    open spec fn view(&self) -> TokenModel {
        TokenModel { kind: self.kind, literal: self.literal@ }
    }
}

impl Clone for Token {
    fn clone(&self) -> (r: Self)
        ensures
            r@ == self@,
    {
        Token { kind: self.kind, literal: self.literal.clone() }
    }
}

/// Characters skipped between tokens: blanks, line breaks and the comma
/// that may separate column names.
pub open spec fn is_separator(c: char) -> bool {
    c == ' ' || c == '\t' || c == '\n' || c == '\r' || c == ','
}

/// Characters that make up an identifier.
pub open spec fn is_letter(c: char) -> bool {
    ('a' <= c && c <= 'z') || ('A' <= c && c <= 'Z')
}

/// The first position at or after `i` that does not hold a separator.
pub open spec fn skip_separators(s: Seq<char>, i: int) -> int
    decreases s.len() - i,
{
    if 0 <= i < s.len() && is_separator(s[i]) {
        skip_separators(s, i + 1)
    } else {
        i
    }
}

/// The first position at or after `i` that does not hold a letter.
pub open spec fn letters_end(s: Seq<char>, i: int) -> int
    decreases s.len() - i,
{
    if 0 <= i < s.len() && is_letter(s[i]) {
        letters_end(s, i + 1)
    } else {
        i
    }
}

/// The outcome of scanning one token from a position.
pub enum Scan {
    /// A token was read; scanning goes on at `next`.
    Read { token: TokenModel, next: int },
    /// The character at `at` starts no token.
    Fault { at: int },
}

pub open spec fn token_model(kind: TokenKind, literal: Seq<char>) -> TokenModel {
    TokenModel { kind, literal }
}

/// The token that starts at or after position `pos` of `s`.
pub open spec fn scan(s: Seq<char>, pos: int) -> Scan {
    let p = skip_separators(s, pos);
    if p >= s.len() {
        Scan::Read { token: token_model(TokenKind::EndOfInput, Seq::empty()), next: p }
    } else if s[p] == '.' {
        Scan::Read { token: token_model(TokenKind::Dot, seq!['.']), next: p + 1 }
    } else if s[p] == '{' {
        Scan::Read { token: token_model(TokenKind::LeftBrace, seq!['{']), next: p + 1 }
    } else if s[p] == '}' {
        Scan::Read { token: token_model(TokenKind::RightBrace, seq!['}']), next: p + 1 }
    } else if is_letter(s[p]) {
        let e = letters_end(s, p);
        Scan::Read { token: token_model(TokenKind::Identifier, s.subrange(p, e)), next: e }
    } else {
        Scan::Fault { at: p }
    }
}

pub proof fn lemma_skip_separators_bounds(s: Seq<char>, i: int)
    requires
        0 <= i <= s.len(),
    ensures
        i <= skip_separators(s, i) <= s.len(),
        skip_separators(s, i) < s.len() ==> !is_separator(s[skip_separators(s, i)]),
    decreases s.len() - i,
{
    if i < s.len() && is_separator(s[i]) {
        lemma_skip_separators_bounds(s, i + 1);
    }
}

pub proof fn lemma_letters_end_bounds(s: Seq<char>, i: int)
    requires
        0 <= i <= s.len(),
    ensures
        i <= letters_end(s, i) <= s.len(),
        forall|k: int| i <= k < letters_end(s, i) ==> is_letter(#[trigger] s[k]),
        letters_end(s, i) < s.len() ==> !is_letter(s[letters_end(s, i)]),
    decreases s.len() - i,
{
    if i < s.len() && is_letter(s[i]) {
        lemma_letters_end_bounds(s, i + 1);
    }
}

/// Scanning moves forward and stays within the input; a token other than
/// the end of input consumes at least one character.
pub proof fn lemma_scan_bounds(s: Seq<char>, pos: int)
    requires
        0 <= pos <= s.len(),
    ensures
        match scan(s, pos) {
            Scan::Read { token, next } => {
                &&& pos <= next <= s.len()
                &&& token.kind != TokenKind::EndOfInput ==> pos < next
                &&& token.kind == TokenKind::EndOfInput ==> next == s.len()
            },
            Scan::Fault { at } => pos <= at < s.len(),
        },
{
    lemma_skip_separators_bounds(s, pos);
    let p = skip_separators(s, pos);
    if p < s.len() && is_letter(s[p]) {
        lemma_letters_end_bounds(s, p);
    }
}

/// A separator, as tested at run time.
fn separator(c: char) -> (r: bool)
    ensures
        r == is_separator(c),
{
    c == ' ' || c == '\t' || c == '\n' || c == '\r' || c == ','
}

/// A letter, as tested at run time.
fn letter(c: char) -> (r: bool)
    ensures
        r == is_letter(c),
{
    ('a' <= c && c <= 'z') || ('A' <= c && c <= 'Z')
}

/// Once the input is exhausted, scanning again yields the end of input
/// again, from the same position: a lexer at the end keeps returning
/// end-of-input tokens and never fails.
pub proof fn lemma_end_of_input_repeats(s: Seq<char>, pos: int)
    requires
        0 <= pos <= s.len(),
        scan(s, pos) matches Scan::Read { token, .. } && token.kind == TokenKind::EndOfInput,
    ensures
        scan(s, pos) matches Scan::Read { next, .. } && scan(s, next) == (Scan::Read {
            token: token_model(TokenKind::EndOfInput, Seq::empty()),
            next,
        }),
{
    lemma_scan_bounds(s, pos);
}

/// The scanner over one source text.
pub struct Lexer {
    input: String,
    chars: Vec<char>,
    position: usize,
}

impl Lexer {
    /// The source text being scanned.
    pub closed spec fn source(&self) -> Seq<char> {
        self.chars@
    }

    /// The position of the next character to be read.
    pub closed spec fn cursor(&self) -> int {
        self.position as int
    }

    pub closed spec fn wf(&self) -> bool {
        &&& self.position <= self.chars.len()
        &&& self.input@ == self.chars@
    }

    pub fn new(input: &str) -> (r: Lexer)
        ensures
            r.wf(),
            r.source() == input@,
            r.cursor() == 0,
    {
        let mut chars: Vec<char> = Vec::new();
        for c in it: input.chars()
            invariant
                chars@ == it.seq().take(it.index() as int),
        {
            chars.push(c);
        }
        assert(chars@ == input@);
        Lexer { input: String::from_str(input), chars, position: 0 }
    }

    /// Moves the cursor one character on, unless it stands at the end.
    pub fn read_char(&mut self)
        requires
            old(self).wf(),
        ensures
            final(self).wf(),
            final(self).source() == old(self).source(),
            final(self).cursor() == if old(self).cursor() < old(self).source().len() {
                old(self).cursor() + 1
            } else {
                old(self).cursor()
            },
    {
        if self.position < self.chars.len() {
            self.position = self.position + 1;
        }
    }

    /// Moves the cursor past blanks, line breaks and commas.
    pub fn skip_whitespace(&mut self)
        requires
            old(self).wf(),
        ensures
            final(self).wf(),
            final(self).source() == old(self).source(),
            final(self).cursor() == skip_separators(old(self).source(), old(self).cursor()),
    {
        while self.position < self.chars.len() && separator(self.chars[self.position])
            invariant
                self.wf(),
                self.source() == old(self).source(),
                skip_separators(self.source(), self.cursor()) == skip_separators(
                    old(self).source(),
                    old(self).cursor(),
                ),
            decreases self.chars.len() - self.position,
        {
            self.read_char();
        }
    }

    /// Reads the run of letters that starts at the cursor.
    pub fn read_identifier(&mut self) -> (r: String)
        requires
            old(self).wf(),
        ensures
            final(self).wf(),
            final(self).source() == old(self).source(),
            final(self).cursor() == letters_end(old(self).source(), old(self).cursor()),
            r@ == old(self).source().subrange(old(self).cursor(), final(self).cursor()),
    {
        let start = self.position;
        while self.position < self.chars.len() && letter(self.chars[self.position])
            invariant
                self.wf(),
                self.source() == old(self).source(),
                start <= self.position,
                letters_end(self.source(), self.cursor()) == letters_end(
                    old(self).source(),
                    old(self).cursor(),
                ),
            decreases self.chars.len() - self.position,
        {
            self.read_char();
        }
        String::from_str(self.input.as_str().substring_char(start, self.position))
    }

    /// Reads the next token. Past the end of the input it keeps returning
    /// an end-of-input token; a character that starts no token is an error
    /// that names that character and its position.
    pub fn next_token(&mut self) -> (r: Result<Token, CompileError>)
        requires
            old(self).wf(),
        ensures
            final(self).wf(),
            final(self).source() == old(self).source(),
            match scan(old(self).source(), old(self).cursor()) {
                Scan::Read { token, next } => {
                    &&& r is Ok
                    &&& r->Ok_0@ == token
                    &&& final(self).cursor() == next
                },
                Scan::Fault { at } => {
                    &&& r matches Err(e) && e@ == (Failure::Lex { character: old(self).source()[at], position: at })
                    &&& final(self).cursor() == at
                },
            },
    {
        self.skip_whitespace();
        proof {
            lemma_skip_separators_bounds(old(self).source(), old(self).cursor());
        }
        if self.position >= self.chars.len() {
            proof {
                reveal_strlit("");
                assert(""@ =~= Seq::<char>::empty());
            }
            return Ok(Token { kind: TokenKind::EndOfInput, literal: String::from_str("") });
        }
        let c = self.chars[self.position];
        if c == '.' {
            self.read_char();
            proof {
                reveal_strlit(".");
                assert("."@ =~= seq!['.']);
            }
            Ok(Token { kind: TokenKind::Dot, literal: String::from_str(".") })
        } else if c == '{' {
            self.read_char();
            proof {
                reveal_strlit("{");
                assert("{"@ =~= seq!['{']);
            }
            Ok(Token { kind: TokenKind::LeftBrace, literal: String::from_str("{") })
        } else if c == '}' {
            self.read_char();
            proof {
                reveal_strlit("}");
                assert("}"@ =~= seq!['}']);
            }
            Ok(Token { kind: TokenKind::RightBrace, literal: String::from_str("}") })
        } else if letter(c) {
            let literal = self.read_identifier();
            Ok(Token { kind: TokenKind::Identifier, literal })
        } else {
            Err(CompileError::LexError { character: c, position: self.position })
        }
    }
}

} // verus!
