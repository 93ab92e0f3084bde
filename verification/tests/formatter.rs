use fsl::tools::formatter::Formatter;

#[test]
fn operators_are_spaced() {
    assert_eq!(Formatter::format_operators("a+b"), "a + b");
    assert_eq!(Formatter::format_operators("a - b"), "a - b");
    assert_eq!(Formatter::format_operators("a*b/c"), "a * b / c");
    assert_eq!(Formatter::format_operators("x=1"), "x = 1");
}

#[test]
fn blanks_around_assignment_collapse() {
    assert_eq!(Formatter::format_operators("x  =  1"), "x = 1");
    assert_eq!(Formatter::format_operators("a   b"), "a b");
}

#[test]
fn comparison_operators_stay_whole() {
    assert_eq!(Formatter::format_operators("a==b"), "a==b");
    assert_eq!(Formatter::format_operators("a!=b"), "a!=b");
    assert_eq!(Formatter::format_operators("a>=b"), "a>=b");
    assert_eq!(Formatter::format_operators("a<=b"), "a<=b");
}

#[test]
fn arabic_equality_words_are_spaced() {
    assert_eq!(Formatter::format_operators("س يساوي 5"), "س يساوي 5");
    assert_eq!(Formatter::format_operators("س مساوي ص"), "س مساوي ص");
}

#[test]
fn no_two_spaces_in_a_row() {
    for piece in ["a  +  b", "x=  =y", "   ", "a - - b", "p  يساوي  q"] {
        let out = Formatter::format_operators(piece);
        assert!(!out.contains("  "), "{:?} gave {:?}", piece, out);
    }
}

#[test]
fn string_literals_are_kept() {
    assert_eq!(Formatter::format_line_safely("x=\"a=b\""), "x = \"a=b\"");
    assert_eq!(Formatter::format_line_safely("print \"1+1\"+a"), "print \"1+1\" + a");
    assert_eq!(Formatter::format_line_safely("y=\"open"), "y = \"open");
}

#[test]
fn format_source_formats_each_line() {
    assert_eq!(
        Formatter::format_source("let x=1\n  if x>2\n"),
        "let x = 1\n  if x>2\n"
    );
    assert_eq!(Formatter::format_source("a-b"), "a - b\n");
    assert_eq!(Formatter::format_source("\tx=1"), " x = 1\n");
}

#[test]
fn format_source_edge_cases() {
    assert_eq!(Formatter::format_source(""), "");
    assert_eq!(Formatter::format_source("\n\n"), "\n");
    assert_eq!(Formatter::format_source("a\n   \nb"), "a\n\nb\n");
    assert_eq!(Formatter::format_source("a\r\nb\r\n"), "a\nb\n");
}

#[test]
fn formatted_source_ends_with_a_line_feed() {
    for src in ["x=1", "x=1\n", "a\n\n", "  \n", "print \"a\""] {
        let out = Formatter::format_source(src);
        assert!(out.is_empty() || out.ends_with('\n'), "{:?} gave {:?}", src, out);
    }
}

#[test]
fn literal_between_code_is_kept() {
    assert_eq!(Formatter::format_line_safely("a+\"x+y\"+b"), "a + \"x+y\" + b");
    assert_eq!(Formatter::format_line_safely("\"a  =  b\""), "\"a  =  b\"");
}
