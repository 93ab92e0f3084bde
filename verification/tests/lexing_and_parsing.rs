use fsl::compiler::ast::{Expr, Stmt};
use fsl::compiler::frontend::{compile, CompileError};
use fsl::compiler::interpreter::value::Type;
use fsl::compiler::lexer::tokens::{Token as SimpleToken, TokenType};
use fsl::compiler::lexer::{Lexer, TokenKind};
use fsl::compiler::parser::Parser;

fn kinds(source: &str) -> Vec<TokenKind> {
    Lexer::new(source).scan_tokens().unwrap().iter().map(|t| t.kind).collect()
}

#[test]
fn lexer_ends_with_eof_and_balances_blocks() {
    let toks = Lexer::new("if x\n    print x\n").scan_tokens().unwrap();
    assert_eq!(toks.last().unwrap().kind, TokenKind::Eof);
    let indents = toks.iter().filter(|t| t.kind == TokenKind::Indent).count();
    let dedents = toks.iter().filter(|t| t.kind == TokenKind::Dedent).count();
    assert_eq!(indents, 1);
    assert_eq!(indents, dedents);
}

#[test]
fn arabic_keywords() {
    assert_eq!(
        kinds("دع س = 1"),
        vec![TokenKind::Let, TokenKind::Identifier, TokenKind::Equal, TokenKind::Number, TokenKind::Eof]
    );
}

#[test]
fn lexer_errors() {
    assert_eq!(
        Lexer::new("\"abc").scan_tokens().unwrap_err(),
        "سلسلة نصية غير مغلقة."
    );
    assert_eq!(
        Lexer::new("a & b").scan_tokens().unwrap_err(),
        "Error: single & at line 1"
    );
}

#[test]
fn parser_reports_every_error() {
    let tokens = Lexer::new("let = 1\nlet = 2\n").scan_tokens().unwrap();
    let errors = Parser::new(tokens).parse().unwrap_err();
    assert_eq!(errors.len(), 2);
    assert_eq!(errors[0].message, "متوقع اسم المتغير بعد الإعلان عنه.");
    assert_eq!(errors[0].token.line, 1);
}

#[test]
fn binary_operators_nest_by_precedence() {
    let statements = compile("print 1 + 2 * 3").unwrap();
    match &statements[0] {
        Stmt::Print(Expr::Binary { right, operator, .. }) => {
            assert_eq!(operator.lexeme, "+");
            assert!(matches!(**right, Expr::Binary { .. }));
        }
        _ => panic!("expected a print of a sum"),
    }
}

#[test]
fn bare_call_arguments() {
    let statements = compile("show 1 \"a\" b").unwrap();
    match &statements[0] {
        Stmt::Expression(Expr::Call { arguments, .. }) => assert_eq!(arguments.len(), 3),
        _ => panic!("expected a call"),
    }
}

#[test]
fn bad_assignment_target() {
    let errs = match compile("1 = 2") {
        Err(CompileError::Parse(errs)) => errs,
        _ => panic!("expected a parse error"),
    };
    assert_eq!(errs[0].message, "هدف الإسناد (Assignment target) غير صالح.");
}

#[test]
fn compile_reports_lexer_errors() {
    assert!(matches!(compile("a | b"), Err(CompileError::Lex(_))));
}

#[test]
fn else_if_chains() {
    let source = "if a\n    print 1\nelse if b\n    print 2\nelse\n    print 3\n";
    let statements = compile(source).unwrap();
    assert_eq!(statements.len(), 1);
    match &statements[0] {
        Stmt::If { else_branch: Some(e), .. } => assert!(matches!(**e, Stmt::If { .. })),
        _ => panic!("expected an if"),
    }
}

#[test]
fn value_type_names() {
    assert_eq!(Type::Number.name(), "رقم");
    assert_eq!(Type::String.name(), "نص");
    assert_eq!(Type::Boolean.name(), "منطقي");
    assert_eq!(Type::Array.name(), "مصفوفة");
    assert_eq!(Type::Function.name(), "دالة");
    assert_eq!(Type::Nil.name(), "عدم");
}

#[test]
fn simple_token_constructor() {
    let t = SimpleToken::new(TokenType::Number, Some("1".to_string()));
    assert_eq!(t.token_type, TokenType::Number);
    assert_eq!(t.value, Some("1".to_string()));
}

#[test]
fn identifiers_with_digits_and_underscores() {
    let toks = Lexer::new("let x1 = _y2").scan_tokens().unwrap();
    assert_eq!(toks[1].kind, TokenKind::Identifier);
    assert_eq!(toks[1].lexeme, "x1");
    assert_eq!(toks[3].lexeme, "_y2");
}

#[test]
fn unsupported_character() {
    assert_eq!(
        Lexer::new("x\n@").scan_tokens().unwrap_err(),
        "رموز غير مدعومة في السطر 2: '@'"
    );
}

#[test]
fn arabic_comma_and_plus_equal() {
    assert_eq!(
        kinds("f(a، b)"),
        vec![
            TokenKind::Identifier,
            TokenKind::LeftParen,
            TokenKind::Identifier,
            TokenKind::Comma,
            TokenKind::Identifier,
            TokenKind::RightParen,
            TokenKind::Eof
        ]
    );
    assert_eq!(
        kinds("a += 1"),
        vec![TokenKind::Identifier, TokenKind::Equal, TokenKind::Number, TokenKind::Eof]
    );
}

#[test]
fn comment_after_code_is_skipped() {
    assert_eq!(
        kinds("x // note\ny"),
        vec![TokenKind::Identifier, TokenKind::Newline, TokenKind::Identifier, TokenKind::Eof]
    );
}

#[test]
fn blocks_never_close_before_they_open_and_lines_only_grow() {
    let source = "if a\n    if b\n        print 1\n    print 2\nprint 3\n";
    let toks = Lexer::new(source).scan_tokens().unwrap();
    let mut open = 0i32;
    let mut line = 0usize;
    for t in &toks {
        match t.kind {
            TokenKind::Indent => open += 1,
            TokenKind::Dedent => open -= 1,
            _ => {}
        }
        assert!(open >= 0);
        assert!(t.line >= line);
        line = t.line;
    }
    assert_eq!(open, 0);
    assert_eq!(toks.iter().filter(|t| t.kind == TokenKind::Indent).count(), 2);
}
