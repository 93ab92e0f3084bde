use vstd::prelude::*;

verus! {

/// What can go wrong while reading source text, and where.
#[derive(Debug, Clone, Copy, PartialEq)]
pub enum LexError {
    UnterminatedString { line: usize, column: usize },
    UnterminatedComment { line: usize, column: usize },
    InvalidCharacter { ch: char, line: usize, column: usize },
}

} // verus!
