use fsl::chars::parse_int;
use fsl::cli::{command, is_source_path, project_layout, read_repl_input, Command, ReplInput};
use fsl::compiler::borrow_checker::{BorrowChecker, BorrowKind};
use fsl::compiler::frontend::compile;
use fsl::stdlib::runtime::call;

fn args(values: &[&str]) -> Vec<String> {
    values.iter().map(|v| v.to_string()).collect()
}

#[test]
fn commands() {
    assert_eq!(command(&args(&["fsl"])), Command::Repl);
    assert_eq!(command(&args(&["fsl", "run"])), Command::RunUsage);
    assert_eq!(command(&args(&["fsl", "run", "a.fsl"])), Command::Run("a.fsl".to_string()));
    assert_eq!(command(&args(&["fsl", "b.fsl"])), Command::Run("b.fsl".to_string()));
    assert_eq!(command(&args(&["fsl", "test"])), Command::Test);
    assert_eq!(command(&args(&["fsl", "build"])), Command::Build);
    assert_eq!(command(&args(&["fsl", "fmt"])), Command::Fmt(None));
    assert_eq!(command(&args(&["fsl", "fmt", "m.fsl"])), Command::Fmt(Some("m.fsl".to_string())));
    assert_eq!(command(&args(&["fsl", "new", "demo"])), Command::New(Some("demo".to_string())));
    assert_eq!(command(&args(&["fsl", "--help"])), Command::Help);
    assert_eq!(command(&args(&["fsl", "help"])), Command::Help);
    assert_eq!(command(&args(&["fsl", "--version"])), Command::Version);
}

#[test]
fn source_paths() {
    assert!(is_source_path("main.fsl"));
    assert!(is_source_path(".fsl"));
    assert!(!is_source_path("main.fs"));
    assert!(!is_source_path("fsl"));
    assert!(!is_source_path("main.fsl.txt"));
}

#[test]
fn new_project_layout() {
    let layout = project_layout("demo");
    assert_eq!(layout.dirs, vec!["demo/src", "demo/tests", "demo/examples"]);
    assert_eq!(layout.files.len(), 3);
    assert_eq!(layout.files[0].0, "demo/src/main.fsl");
    assert_eq!(layout.files[0].1, "متغير رسالة = \"مرحبا من Failang\"\nاطبع رسالة\n");
    assert_eq!(layout.files[1].0, "demo/failang.toml");
    assert_eq!(layout.files[1].1, "[package]\nname = \"demo\"\nversion = \"0.1.0\"\n");
    assert_eq!(layout.files[2].0, "demo/README.md");
    assert_eq!(layout.files[2].1, "# demo\n\nFailang Project\n");
}

#[test]
fn repl_inputs() {
    assert_eq!(read_repl_input("   \n"), ReplInput::Empty);
    assert_eq!(read_repl_input(":exit\n"), ReplInput::Exit);
    assert_eq!(read_repl_input(" :خروج "), ReplInput::Exit);
    assert_eq!(read_repl_input(":help"), ReplInput::Help);
    assert_eq!(read_repl_input(":مساعدة"), ReplInput::Help);
    assert_eq!(read_repl_input(":clear"), ReplInput::Clear);
    assert_eq!(read_repl_input(":مسح"), ReplInput::Clear);
    assert_eq!(read_repl_input(":what"), ReplInput::UnknownCommand);
    assert_eq!(read_repl_input("  print 1 \n"), ReplInput::Code("print 1".to_string()));
}

#[test]
fn borrow_checker_accepts_and_keeps_scopes() {
    let statements = compile("if a\n    print 1\n    let b = 2\nwhile c\n    print c\n").unwrap();
    let mut checker = BorrowChecker::new();
    for s in &statements {
        assert!(checker.check_stmt(s).is_ok());
    }
    assert_ne!(BorrowKind::Shared, BorrowKind::Mutable);
}

#[test]
fn integer_text_reads_back() {
    for v in [0i64, 7, -7, 1234567, i64::MAX, i64::MIN + 1] {
        let text = call("math", "max", args(&[&v.to_string(), &v.to_string()])).unwrap();
        assert_eq!(text, v.to_string());
        assert_eq!(parse_int(&text), Some(v));
    }
}
