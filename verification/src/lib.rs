pub mod chars;
pub mod cli;
pub mod compiler;
pub mod diagnostics;
pub mod pattern;
pub mod runtime;
pub mod stdlib;
pub mod tools;
