use std::collections::HashSet;
use ztcm::run::parse_and_printout::find_declarations;
use ztcm::run::resolve_input::Config;

#[test]
fn parse_and_printout_test_find_declarations() {
    let declarations: HashSet<String> =
        find_declarations("readonly 'test': string;\n readonly 'test2': string;")
            .into_iter()
            .collect();
    let declarations_expected: HashSet<String> =
        HashSet::from(["readonly 'test': string", "readonly 'test2': string"])
            .into_iter()
            .map(String::from)
            .collect();
    assert_eq!(declarations, declarations_expected)
}

#[test]
fn new_args() {
    let binding = ["ztcm".to_string(), "./test".to_string()];
    let args = Config::new_args(&binding).unwrap();
    assert_eq!(args.query, "./test")
}

#[test]
fn new_rec_args() {
    let binding = ["ztcm".to_string(), "./test".to_string(), "-r".to_string()];
    let args = Config::new_args(&binding).unwrap();
    assert_eq!(args.query, "./test");
    assert_eq!(args.flags, vec![&"-r".to_string()])
}

#[test]
fn new_watch_args() {
    let binding = [
        "ztcm".to_string(),
        "./test".to_string(),
        "-w".to_string(),
        "2".to_string(),
    ];
    let args = Config::new_args(&binding).unwrap();
    assert_eq!(args.query, "./test");
    assert_eq!(args.flags, vec![&"-w".to_string(), &"2".to_string()])
}
