//! The front end: tokens, statements and expressions, and the checks on them.
use vstd::prelude::*;
use crate::syntax_analysis::lexer::{lex, lexed, lex_panics, lexes_without_panic, LexError, LexFail};
use crate::syntax_analysis::parser::{parse, parse_sequence, ParseError};
use crate::syntax_analysis::parser::statement::{Statement, stmts_view};
use crate::syntax_analysis::analyzer::{check_program, analyze_program};
use crate::syntax_analysis::errors::Errors;

pub mod lexer;
pub mod parser;
pub mod errors;
pub mod analyzer;

verus! {

/// Why a text is no program.
pub enum SyntaxError {
    /// A word or run of symbols that is no token.
    Lex(LexError),
    /// The tokens form no statements.
    Parse(ParseError),
    /// The statements break the rules of names and types, each error at its position.
    Check(Errors),
}

/// The checks of a text end in no panic: the lexer's, and the analyzer's on the statements
/// that the tokens form.
pub open spec fn checks_complete(source: Seq<char>) -> bool {
    &&& !lex_panics(source)
    &&& (lexed(source).error is None ==> match parse_sequence(lexed(source).tokens) {
        Some(p) => analyze_program(p, seq![]) is Some,
        None => true,
    })
}

/// What turning the text into checked statements gives: the first stage that fails
/// gives the error.
pub open spec fn front_end(source: Seq<char>, r: Result<Vec<Statement>, SyntaxError>) -> bool {
    match r {
        Ok(ast) => {
            &&& lexed(source).error is None
            &&& parse_sequence(lexed(source).tokens) is Some
            &&& analyze_program(parse_sequence(lexed(source).tokens).unwrap(), seq![]).unwrap().0.errors.len() == 0
            &&& stmts_view(ast@) == analyze_program(parse_sequence(lexed(source).tokens).unwrap(), seq![]).unwrap().1
        },
        Err(SyntaxError::Lex(LexError::InvalidIdentifier(e))) => lexed(source).error == Some(LexFail::Invalid(e@)),
        Err(SyntaxError::Parse(_)) => lexed(source).error is None && parse_sequence(lexed(source).tokens) is None,
        Err(SyntaxError::Check(errors)) => {
            &&& lexed(source).error is None
            &&& parse_sequence(lexed(source).tokens) is Some
            &&& errors.view_entries() == analyze_program(parse_sequence(lexed(source).tokens).unwrap(), seq![]).unwrap().0.errors
            &&& errors.view_entries().len() > 0
        },
    }
}

/// Turns a text into checked statements as `produce_ast` does; `None` exactly where the
/// checks of the text panic.
pub fn try_produce_ast(source: String) -> (r: Option<Result<Vec<Statement>, SyntaxError>>)
    requires
        source@.len() < usize::MAX / 8,
    ensures
        match r {
            Some(x) => checks_complete(source@) && front_end(source@, x),
            None => !checks_complete(source@),
        },
{
    if !lexes_without_panic(&source) {
        return None;
    }
    let ghost text = source@;
    let tokens = match lex(source) {
        Ok(tokens) => tokens,
        Err(e) => {
            return Some(Err(SyntaxError::Lex(e)));
        },
    };
    let ast = match parse(tokens) {
        Ok(ast) => ast,
        Err(e) => {
            return Some(Err(SyntaxError::Parse(e)));
        },
    };
    let errors = Errors::new();
    assert(errors.view_entries() =~= seq![]);
    match check_program(ast, errors) {
        None => None,
        Some((typed, found)) => {
            if found.should_abort() {
                Some(Err(SyntaxError::Check(found)))
            } else {
                Some(Ok(typed))
            }
        },
    }
}

/// Turns a text into checked statements: lexes it, parses the tokens and checks the
/// statements. The first stage that fails gives the error.
pub fn produce_ast(source: String) -> (r: Result<Vec<Statement>, SyntaxError>)
    requires
        source@.len() < usize::MAX / 8,
        checks_complete(source@),
    ensures
        front_end(source@, r),
{
    match try_produce_ast(source) {
        Some(r) => r,
        None => Err(SyntaxError::Parse(ParseError::InvalidSyntax)),
    }
}

} // verus!
