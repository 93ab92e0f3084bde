pub mod ast;
pub mod borrow_checker;
pub mod frontend;
pub mod interpreter;
pub mod lexer;
pub mod parser;
