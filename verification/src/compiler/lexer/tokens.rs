use vstd::prelude::*;

verus! {

/// The kinds of token of the minimal token set.
#[derive(Debug, Clone, Copy, PartialEq)]
pub enum TokenType {
    Number,
    String,
    Identifier,
    Let,
    Print,
    If,
    Else,
    While,
    Plus,
    Less,
    Equal,
    LBrace,
    RBrace,
    EOF,
}

/// A token of the minimal token set, with the text it carries if any.
#[derive(Debug, Clone, PartialEq)]
pub struct Token {
    pub token_type: TokenType,
    pub value: Option<String>,
}

impl Token {
    pub fn new(token_type: TokenType, value: Option<String>) -> (r: Self)
        ensures
            r.token_type == token_type,
            r.value == value,
    {
        Token { token_type, value }
    }
}

} // verus!
