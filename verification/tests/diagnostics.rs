use fsl::compiler::lexer::{Token, TokenKind};
use fsl::diagnostics::error::{translate, DiagnosticError};
use fsl::diagnostics::reporter::DiagnosticReporter;

#[test]
fn runtime_error_display() {
    let e = DiagnosticError::new("خطأ", "error");
    assert_eq!(e.arabic, "خطأ");
    assert_eq!(e.english, "error");
    assert_eq!(
        e.display(),
        "❌ خطأ أثناء التشغيل | Runtime Error:\nعربي: خطأ\nEn: error"
    );
}

#[test]
fn translate_uses_one_text_for_both() {
    let e = translate("boom");
    assert_eq!(e.arabic, "boom");
    assert_eq!(e.english, "boom");
}

#[test]
fn parse_error_display() {
    let token = Token { kind: TokenKind::Identifier, lexeme: "x".to_string(), line: 3 };
    assert_eq!(
        DiagnosticError::display_parse_error(&token, "msg"),
        "[FSL Parser Error]\n\nالسطر: 3\nالرمز: x\n\nالمشكلة:\nmsg\n\nEnglish:\nmsg"
    );
}

#[test]
fn report_text() {
    let e = DiagnosticError::new("أ", "b");
    assert_eq!(
        DiagnosticReporter::render(&e),
        "[FSL Error]\n\nعربي:\nأ\n\nEnglish:\nb\n"
    );
}
