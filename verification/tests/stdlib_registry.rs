use fsl::stdlib::registry;

#[test]
fn test_bilingual_stdlib_names() {
    let abs_en = registry::find("abs");
    let abs_ar = registry::find("مطلق");

    assert!(abs_en.is_some());
    assert!(abs_ar.is_some());

    assert_eq!(
        abs_en.unwrap().module,
        abs_ar.unwrap().module
    );
}

#[test]
fn every_function_is_found_under_both_names() {
    for f in registry::functions() {
        let by_english = registry::find(f.english).expect("found by English name");
        let by_arabic = registry::find(f.arabic).expect("found by Arabic name");
        assert_eq!(by_english.english, f.english);
        assert_eq!(by_arabic.english, f.english);
        assert_eq!(by_english.module, by_arabic.module);
    }
}

#[test]
fn registry_lists_six_functions_in_order() {
    let names: Vec<&str> = registry::functions().iter().map(|f| f.english).collect();
    assert_eq!(names, vec!["abs", "max", "min", "length", "empty", "version"]);
    let modules: Vec<&str> = registry::functions().iter().map(|f| f.module).collect();
    assert_eq!(modules, vec!["math", "math", "math", "text", "text", "system"]);
}

#[test]
fn unknown_name_is_not_found() {
    assert!(registry::find("sqrt").is_none());
    assert!(registry::find("").is_none());
    assert_eq!(registry::find("إصدار").unwrap().module, "system");
}
