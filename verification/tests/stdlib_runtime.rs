use fsl::runtime::stdlib;

#[test]
fn test_stdlib_bridge() {
    let result = stdlib::call(
        "math",
        "abs",
        vec!["-50".to_string()],
    );

    assert_eq!(result.unwrap(), "50");
}

#[test]
fn test_arabic_stdlib_bridge() {
    let result = stdlib::call(
        "math",
        "مطلق",
        vec!["-20".to_string()],
    );

    assert_eq!(result.unwrap(), "20");
}

fn args(values: &[&str]) -> Vec<String> {
    values.iter().map(|v| v.to_string()).collect()
}

#[test]
fn math_max_and_min_in_both_languages() {
    assert_eq!(stdlib::call("math", "max", args(&["3", "7"])).unwrap(), "7");
    assert_eq!(stdlib::call("math", "أكبر", args(&["-3", "-7"])).unwrap(), "-3");
    assert_eq!(stdlib::call("math", "min", args(&["-3", "7"])).unwrap(), "-3");
    assert_eq!(stdlib::call("math", "أصغر", args(&["12", "12"])).unwrap(), "12");
}

#[test]
fn text_length_counts_characters() {
    assert_eq!(stdlib::call("text", "length", args(&["مرحبا"])).unwrap(), "5");
    assert_eq!(stdlib::call("text", "طول", args(&[""])).unwrap(), "0");
}

#[test]
fn system_version() {
    assert_eq!(stdlib::call("system", "version", args(&[])).unwrap(), "FSL 0.2.3");
    assert_eq!(stdlib::call("system", "إصدار", args(&["ignored"])).unwrap(), "FSL 0.2.3");
}

#[test]
fn calls_that_answer_nothing() {
    assert!(stdlib::call("math", "abs", args(&[])).is_none());
    assert!(stdlib::call("math", "abs", args(&["x"])).is_none());
    assert!(stdlib::call("math", "max", args(&["1"])).is_none());
    assert!(stdlib::call("math", "min", args(&["1", "two"])).is_none());
    assert!(stdlib::call("text", "abs", args(&["1"])).is_none());
    assert!(stdlib::call("math", "sqrt", args(&["4"])).is_none());
    assert!(stdlib::call("math", "abs", args(&["-9223372036854775808"])).is_none());
}

#[test]
fn signed_arguments() {
    assert_eq!(stdlib::call("math", "abs", args(&["+7"])).unwrap(), "7");
    assert_eq!(stdlib::call("math", "abs", args(&["0"])).unwrap(), "0");
    assert_eq!(
        stdlib::call("math", "abs", args(&["-9223372036854775807"])).unwrap(),
        "9223372036854775807"
    );
}
