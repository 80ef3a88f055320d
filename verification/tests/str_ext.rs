use ztcm::parse_and_printout::str_ext::StrExt;

#[test]
fn test_split_string() {
    assert_eq!("test".split_first_char(), ("t", "est"))
}

#[test]
fn test_remove_last() {
    assert_eq!("test".remove_last(), "tes")
}

#[test]
fn str_ext_test_get_classes_or_ids() {
    let class_or_id = ".testClass {}\n#testId {}\n.errorClass {\n@value test;".get_classes_or_ids();
    let class_or_id_expected = [".testClass", "#testId", "@value test"];
    assert_eq!(class_or_id, class_or_id_expected)
}

#[test]
fn test_find_classes_or_ids() {
    let class_or_id = ".testClass {}\n#testId {}\n.errorClass {\n@value test;".find_classes_or_ids();
    let class_or_id_expected = [".testClass {}", "#testId {}", "@value test;"];
    assert_eq!(class_or_id, class_or_id_expected)
}

#[test]
fn str_ext_test_remove_comments() {
    let text = "/*\n.commentClass {}\n*/\n.test{}".to_string();
    let parsed_text = &text.remove_comments();
    assert_eq!(parsed_text, &"\n.test{}")
}

#[test]
fn str_ext_test_remove_modifiers() {
    let parsed_id = "#test:modifiers".remove_modifiers();
    let parsed_val = "@value test".remove_modifiers();
    assert_eq!(
        (parsed_id, parsed_val),
        ("test".to_string(), "test".to_string())
    )
}

#[test]
fn test_split_classes_or_ids() {
    let classes_or_ids = "#testClass, .testId";
    assert_eq!(
        classes_or_ids.split_classes_ids(),
        ["#testClass", ".testId"]
    )
}

#[test]
fn str_ext_camel_case() {
    let name = "Hello-world".camel_case_converter();
    assert_eq!(name, "helloWorld");
}
