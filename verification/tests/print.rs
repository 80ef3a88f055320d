use std::collections::HashSet;
use ztcm::parse_and_printout::print::find_declarations;

#[test]
fn print_test_find_declarations() {
    let declarations: HashSet<String> =
        find_declarations("readonly 'test': string;\n readonly 'test2': string;")
            .into_iter()
            .collect();
    let declarations_expected: HashSet<String> =
        HashSet::from(["readonly 'test': string;", "readonly 'test2': string;"])
            .into_iter()
            .map(String::from)
            .collect();
    assert_eq!(declarations, declarations_expected)
}
