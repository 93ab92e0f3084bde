use vstd::prelude::*;
use crate::chars::append_str;
use crate::diagnostics::error::DiagnosticError;

verus! {

/// Reports diagnostics to the user.
pub struct DiagnosticReporter;

/// What a report prints: a heading, then the Arabic and the English
/// descriptions under headings of their own, each line ended.
pub open spec fn report_text(arabic: Seq<char>, english: Seq<char>) -> Seq<char> {
    "[FSL Error]\n\nعربي:\n"@ + arabic + "\n\nEnglish:\n"@ + english + "\n"@
}

impl DiagnosticReporter {
    /// The text a report of `error` prints.
    pub fn render(error: &DiagnosticError) -> (r: String)
        ensures
            r@ == report_text(error.arabic@, error.english@),
    {
        let mut s = String::new();
        append_str(&mut s, "[FSL Error]\n\nعربي:\n");
        append_str(&mut s, error.arabic.as_str());
        append_str(&mut s, "\n\nEnglish:\n");
        append_str(&mut s, error.english.as_str());
        append_str(&mut s, "\n");
        s
    }
}

} // verus!
