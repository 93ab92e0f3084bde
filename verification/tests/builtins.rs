use fsl::compiler::interpreter::builtins::{
    builtin_names, char_at_text, contains_text, ends_with_text, index_of_text, replace_text,
    slice_text, split_text_pieces, starts_with_text, trim_text,
};

#[test]
fn every_builtin_has_an_arabic_and_an_english_name() {
    let names = builtin_names();
    assert_eq!(names.len(), 52);
    for pair in names.chunks(2) {
        assert_eq!(pair[0].1, pair[1].1);
        assert!(!pair[0].0.is_ascii());
        assert!(pair[1].0.is_ascii());
    }
    assert_eq!(names[0], ("طول", "length"));
    assert_eq!(names[51], ("min", "min"));
}

#[test]
fn text_queries() {
    assert_eq!(trim_text("  مرحبا \t\n"), "مرحبا");
    assert_eq!(trim_text(" \u{3000} "), "");
    assert!(contains_text("hello", "ell"));
    assert!(contains_text("hello", ""));
    assert!(!contains_text("hello", "xyz"));
    assert!(starts_with_text("hello", "he"));
    assert!(!starts_with_text("he", "hello"));
    assert!(ends_with_text("hello", "lo"));
    assert!(ends_with_text("hello", ""));
    assert!(!ends_with_text("lo", "hello"));
}

#[test]
fn characters_and_slices() {
    assert_eq!(char_at_text("سلام", 1), Some('ل'));
    assert_eq!(char_at_text("abc", 3), None);
    assert_eq!(slice_text("abcdef", 1, 4), "bcd");
    assert_eq!(slice_text("abc", 2, 10), "c");
    assert_eq!(slice_text("abc", 5, 9), "");
}

#[test]
fn index_of_counts_bytes() {
    assert_eq!(index_of_text("abcabc", "ca"), Some(2));
    assert_eq!(index_of_text("سلام", "ام"), Some(4));
    assert_eq!(index_of_text("abc", ""), Some(0));
    assert_eq!(index_of_text("abc", "z"), None);
}

#[test]
fn replace_like_str_replace() {
    assert_eq!(replace_text("a-b-c", "-", "+"), "a+b+c");
    assert_eq!(replace_text("aaa", "aa", "b"), "ba");
    assert_eq!(replace_text("abc", "", "X"), "XaXbXcX");
    assert_eq!(replace_text("", "", "X"), "X");
}

#[test]
fn split_like_str_split() {
    assert_eq!(split_text_pieces("a,b,,c", ","), vec!["a", "b", "", "c"]);
    assert_eq!(split_text_pieces("a,", ","), vec!["a", ""]);
    assert_eq!(split_text_pieces("", ","), vec![""]);
    assert_eq!(split_text_pieces("abc", ""), vec!["", "a", "b", "c", ""]);
    assert_eq!(split_text_pieces("a--b", "--"), vec!["a", "b"]);
    for (text, sep) in [("x y  z", " "), ("aaa", "a"), ("مرحبا بك", " ")] {
        let ours = split_text_pieces(text, sep);
        let std: Vec<String> = text.split(sep).map(|s| s.to_string()).collect();
        assert_eq!(ours, std);
    }
}
