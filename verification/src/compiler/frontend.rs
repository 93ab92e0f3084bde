use vstd::prelude::*;
use crate::compiler::ast::{stmts_view, SStmt, Stmt};
use crate::compiler::lexer::{lemma_lex_well_formed, lex, tokens_view, Lexer};
use crate::compiler::parser::{errors_view, parse_tokens, ParseError, Parser, SParseError};

verus! {

/// Why source text could not be turned into statements.
#[derive(Debug)]
pub enum CompileError {
    /// The text could not be read as tokens.
    Lex(String),
    /// The tokens could not be parsed; every error met.
    Parse(Vec<ParseError>),
}

/// The value of a compilation error.
pub enum SCompileError {
    Lex(Seq<char>),
    Parse(Seq<SParseError>),
}

/// What reading and parsing source text gives.
pub open spec fn compiled(src: Seq<char>) -> Result<Seq<SStmt>, SCompileError> {
    match lex(src) {
        Err(e) => Err(SCompileError::Lex(e)),
        Ok(ts) => match parse_tokens(ts) {
            Ok(ss) => Ok(ss),
            Err(es) => Err(SCompileError::Parse(es)),
        },
    }
}

/// The value of a compilation's outcome.
pub open spec fn compile_res(r: Result<Vec<Stmt>, CompileError>) -> Result<
    Seq<SStmt>,
    SCompileError,
> {
    match r {
        Ok(ss) => Ok(stmts_view(ss@)),
        Err(CompileError::Lex(e)) => Err(SCompileError::Lex(e@)),
        Err(CompileError::Parse(es)) => Err(SCompileError::Parse(errors_view(es@))),
    }
}

/// Reads source text into tokens and parses them into statements.
pub fn compile(source: &str) -> (r: Result<Vec<Stmt>, CompileError>)
    requires
        source@.len() <= usize::MAX / 4,
    ensures
        compile_res(r) == compiled(source@),
{
    let lexer = Lexer::new(source);
    let tokens = match lexer.scan_tokens() {
        Ok(t) => t,
        Err(e) => {
            return Err(CompileError::Lex(e));
        },
    };
    proof {
        lemma_lex_well_formed(source@);
        assert(tokens_view(tokens@).last() == tokens@.last()@);
    }
    let mut parser = Parser::new(tokens);
    match parser.parse() {
        Ok(statements) => Ok(statements),
        Err(errors) => Err(CompileError::Parse(errors)),
    }
}

} // verus!
