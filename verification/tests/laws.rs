use ztcm::parse_and_printout::modules_of;
use ztcm::parse_and_printout::parse::{parse_file_data, ModFlags};
use ztcm::parse_and_printout::print::print_files;
use ztcm::run::resolve_input::Config;
use ztcm::strings::is_white_space;

fn strings(v: &[&str]) -> Vec<String> {
    v.iter().map(|s| s.to_string()).collect()
}

#[test]
fn white_space_agrees_with_std() {
    for code in 0u32..=0x10FFFF {
        if let Some(c) = char::from_u32(code) {
            assert_eq!(is_white_space(c), c.is_whitespace(), "{:x}", code);
        }
    }
}

#[test]
fn global_paths_are_dropped_in_order() {
    let paths = strings(&["a.css", "styles/global.css", "b.css", "global-x.css", "c.css"]);
    let modules = modules_of(&paths);
    assert_eq!(modules, ["a.css", "b.css", "c.css"]);
    assert_eq!(modules_of(&modules), modules);
}

#[test]
fn last_output_and_pattern_flags_win() {
    let args = strings(&["ztcm", "dir", "-o", "one", "-p", ".a", "-o", "two", "-c"]);
    let config = Config::new_args(&args).ok().unwrap();
    assert!(config.flag_panic().is_none());
    let o = config.run_options().ok().unwrap();
    assert_eq!((o.out_dir.as_str(), o.pattern.as_str()), ("two", ".a"));
    assert!(o.cc_flag && !o.kc_flag && !o.recursive);
}

#[test]
fn camel_case_only_renames() {
    let css = ".a-b {}\n.a--b {}\n.plain {}\n";
    let out_dir = String::new();
    let plain = parse_file_data(
        &"x.css".to_string(),
        css,
        &ModFlags { camel_case_flag: false, out_dir: &out_dir },
    );
    let camel = parse_file_data(
        &"x.css".to_string(),
        css,
        &ModFlags { camel_case_flag: true, out_dir: &out_dir },
    );
    assert_eq!(
        plain.0,
        ["readonly 'a-b': string;", "readonly 'a--b': string;", "readonly 'plain': string;"]
    );
    assert_eq!(camel.0, ["readonly 'aB': string;", "readonly 'plain': string;"]);
    assert_eq!(plain.1, camel.1);
}

#[test]
fn readme_declaration_file() {
    let css = "@value primary: red;\n\n.myClass {\n  color: primary;\n}\n";
    let out_dir = String::new();
    let (lines, _) = parse_file_data(
        &"styles.css".to_string(),
        css,
        &ModFlags { camel_case_flag: false, out_dir: &out_dir },
    );
    let plan = print_files(&lines, None);
    assert_eq!(
        plan.contents,
        "declare const styles: {\n readonly 'primary': string;\n readonly 'myClass': string;\n};\nexport default styles;"
    );
    let again = print_files(&lines, Some(&plan.contents));
    assert!(!again.write);
}
