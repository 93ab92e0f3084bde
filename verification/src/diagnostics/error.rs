use vstd::prelude::*;
use crate::chars::{append_decimal, append_str, string_from};
use crate::compiler::lexer::Token;

verus! {

/// An error described in Arabic and in English.
#[derive(Debug, Clone)]
pub struct DiagnosticError {
    pub arabic: String,
    pub english: String,
}

/// The text of a runtime error: a heading, then the Arabic and the English
/// descriptions on lines of their own.
pub open spec fn runtime_error_text(arabic: Seq<char>, english: Seq<char>) -> Seq<char> {
    "❌ خطأ أثناء التشغيل | Runtime Error:\nعربي: "@ + arabic + "\nEn: "@ + english
}

/// The text of a parse error: the line and the lexeme of the token where it
/// was noticed, then the message (the same text stands in both languages).
pub open spec fn parse_error_text(line: nat, lexeme: Seq<char>, message: Seq<char>) -> Seq<char> {
    "[FSL Parser Error]\n\nالسطر: "@ + crate::chars::decimal(line) + "\nالرمز: "@ + lexeme
        + "\n\nالمشكلة:\n"@ + message + "\n\nEnglish:\n"@ + message
}

impl DiagnosticError {
    pub fn new(arabic: &str, english: &str) -> (r: Self)
        ensures
            r.arabic@ == arabic@,
            r.english@ == english@,
    {
        DiagnosticError { arabic: string_from(arabic), english: string_from(english) }
    }

    /// The error as shown to the user.
    pub fn display(&self) -> (r: String)
        ensures
            r@ == runtime_error_text(self.arabic@, self.english@),
    {
        let mut s = String::new();
        append_str(&mut s, "❌ خطأ أثناء التشغيل | Runtime Error:\nعربي: ");
        append_str(&mut s, self.arabic.as_str());
        append_str(&mut s, "\nEn: ");
        append_str(&mut s, self.english.as_str());
        s
    }

    /// A parse error as shown to the user.
    pub fn display_parse_error(token: &Token, message: &str) -> (r: String)
        ensures
            r@ == parse_error_text(token.line as nat, token.lexeme@, message@),
    {
        let mut s = String::new();
        append_str(&mut s, "[FSL Parser Error]\n\nالسطر: ");
        append_decimal(&mut s, token.line as u64);
        append_str(&mut s, "\nالرمز: ");
        append_str(&mut s, token.lexeme.as_str());
        append_str(&mut s, "\n\nالمشكلة:\n");
        append_str(&mut s, message);
        append_str(&mut s, "\n\nEnglish:\n");
        append_str(&mut s, message);
        s
    }
}

/// A message turned into a diagnostic: the same text in both languages.
pub fn translate(message: &str) -> (r: DiagnosticError)
    ensures
        r.arabic@ == message@,
        r.english@ == message@,
{
    DiagnosticError::new(message, message)
}

} // verus!
