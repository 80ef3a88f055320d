use ztcm::parse_and_printout::parse::{format_line, outfile_name, parse_file_data, ModFlags};
use ztcm::parse_and_printout::print::{print_files, render_declarations};
use ztcm::parse_and_printout::str_ext::StrExt;
use ztcm::parse_and_printout::{is_module_path, thread_ranges};
use ztcm::parser::{find_classes_or_ids, get_file_data, parse_files, print_files as first_print_files};
use ztcm::resolve_input::{Config as MidConfig, FlagError, WatchDelay};
use ztcm::run::get_file_paths::{glob_pattern, recursive_glob_pattern};
use ztcm::run::parse_and_printout::{parse_and_print, SourceFile};
use ztcm::run::resolve_input::{get_defaults, Config as RunConfig};
use ztcm::run::thread_prefixes;
use ztcm::strings::{
    contains_text, ends_with_text, is_float_literal, parse_i32, split_char, trim_text,
};
use ztcm::watch::WatchState;

fn strings(v: &[&str]) -> Vec<String> {
    v.iter().map(|s| s.to_string()).collect()
}

#[test]
fn readme_styles_declare_value_and_class() {
    let css = "/* styles.css */\n\n@value primary: red;\n\n.myClass {\n  color: primary;\n}\n";
    let out_dir = String::new();
    let flags = ModFlags { camel_case_flag: false, out_dir: &out_dir };
    let (lines, outfile) = parse_file_data(&"styles.css".to_string(), css, &flags);
    assert_eq!(lines, ["readonly 'primary': string;", "readonly 'myClass': string;"]);
    assert_eq!(outfile, "styles.css.d.ts");
}

#[test]
fn declarations_are_distinct_and_skip_reserved_words() {
    let css = ".a {}\n#a {}\n.any {}\n.b, .c {}\n.b:hover {}\n";
    let out_dir = String::new();
    let flags = ModFlags { camel_case_flag: false, out_dir: &out_dir };
    let (lines, _) = parse_file_data(&"x.css".to_string(), css, &flags);
    assert_eq!(
        lines,
        ["readonly 'a': string;", "readonly 'b': string;", "readonly 'c': string;"]
    );
}

#[test]
fn camel_case_flag_converts_names() {
    let css = ".test-class {}\n#Main-Title-bar {}\n";
    let out_dir = String::new();
    let flags = ModFlags { camel_case_flag: true, out_dir: &out_dir };
    let (lines, _) = parse_file_data(&"x.css".to_string(), css, &flags);
    assert_eq!(lines, ["readonly 'testClass': string;", "readonly 'mainTitleBar': string;"]);
}

#[test]
fn outfile_goes_to_out_dir_by_file_name() {
    assert_eq!(
        outfile_name(&"./test/test.module.css".to_string(), &"test/test_outdir".to_string()),
        "test/test_outdir/test.module.css.d.ts"
    );
    assert_eq!(
        outfile_name(&"./test/test.module.css".to_string(), &String::new()),
        "./test/test.module.css.d.ts"
    );
}

#[test]
fn format_line_writes_a_declaration() {
    assert_eq!(format_line("x-y".to_string()), "readonly 'x-y': string;");
}

#[test]
fn declaration_file_text() {
    let data = strings(&["readonly 'a': string;", "readonly 'b': string;"]);
    assert_eq!(
        render_declarations(&data),
        "declare const styles: {\n readonly 'a': string;\n readonly 'b': string;\n};\nexport default styles;"
    );
    assert_eq!(render_declarations(&vec![]), "declare const styles: {\n};\nexport default styles;");
}

#[test]
fn new_declaration_file_is_written() {
    let data = strings(&["readonly 'a': string;"]);
    let plan = print_files(&data, None);
    assert!(plan.write);
    assert!(!plan.announce_creation);
}

#[test]
fn up_to_date_declaration_file_is_left_alone() {
    let data = strings(&["readonly 'a': string;", "readonly 'b': string;"]);
    let existing = render_declarations(&data);
    let plan = print_files(&data, Some(&existing));
    assert!(!plan.write);
    let more = strings(&["readonly 'a': string;", "readonly 'c': string;"]);
    assert!(print_files(&more, Some(&existing)).write);
    assert!(!print_files(&vec![], None).write);
}

#[test]
fn batch_plans_skip_global_outfiles() {
    let out_dir = String::new();
    let flags = ModFlags { camel_case_flag: false, out_dir: &out_dir };
    let a = SourceFile {
        path: "a.module.css".to_string(),
        css: ".one {}\n".to_string(),
        existing_output: None,
    };
    let b = SourceFile {
        path: "global.css".to_string(),
        css: ".two {}\n".to_string(),
        existing_output: None,
    };
    let c = SourceFile {
        path: "c.module.css".to_string(),
        css: ".three {}\n".to_string(),
        existing_output: Some("readonly 'three': string;".to_string()),
    };
    let plans = parse_and_print(&vec![a, b, c], &flags);
    assert_eq!(plans.len(), 3);
    assert_eq!(plans[0].outfile_name, "a.module.css.d.ts");
    assert!(plans[0].plan.as_ref().unwrap().write);
    assert!(plans[1].plan.is_none());
    assert!(!plans[2].plan.as_ref().unwrap().write);
}

#[test]
fn global_paths_are_not_parsed() {
    assert!(!is_module_path(&"./styles/global.css".to_string()));
    assert!(is_module_path(&"./styles/test.module.css".to_string()));
}

#[test]
fn threads_partition_the_paths() {
    assert_eq!(thread_ranges(5, 2), vec![(0, 3), (3, 5)]);
    assert_eq!(thread_ranges(6, 3), vec![(0, 2), (2, 4), (4, 6)]);
    assert_eq!(thread_ranges(1, 1), vec![(0, 1)]);
    assert_eq!(thread_ranges(3, 0), vec![]);
    assert_eq!(thread_ranges(5, 4), vec![(0, 2), (2, 4), (4, 5), (5, 5)]);
}

#[test]
fn older_threads_take_prefixes() {
    assert_eq!(thread_prefixes(5, 2), vec![(0, 3), (0, 5)]);
    assert_eq!(thread_prefixes(4, 4), vec![(0, 1), (0, 2), (0, 3), (0, 4)]);
}

#[test]
fn watch_icon_turns_and_reindexes() {
    let mut state = WatchState::new();
    let mut icons = Vec::new();
    let mut reindexed = Vec::new();
    for _ in 0..10 {
        let (next, action) = state.step(3);
        icons.push(action.icon.clone());
        reindexed.push(action.reindex);
        state = next;
    }
    assert_eq!(icons[0].as_deref(), Some("\r[/]"));
    assert_eq!(icons[1], None);
    assert_eq!(icons[2].as_deref(), Some("\r[-]"));
    // after re-indexing the icon's counter restarts at 1, so the next cycle draws nothing
    assert_eq!(icons[3], None);
    assert_eq!(icons[4].as_deref(), Some("\r[\\]"));
    assert_eq!(icons[5], None);
    assert_eq!(icons[6], None);
    assert_eq!(icons[7].as_deref(), Some("\r[\x1b[36m/\x1b[0m]"));
    assert_eq!(reindexed, vec![false, false, true, false, false, true, false, false, true, false]);
    let mut state = WatchState::new();
    for _ in 0..3 {
        let (next, action) = state.step(1);
        assert!(action.reindex);
        state = next;
    }
    assert_eq!((state.cycle, state.since_index), (1, 0));
    let s = WatchState { cycle: 0, since_index: 0, load_state: 3, load_color: 0 };
    let (next, action) = s.step(45);
    assert_eq!(action.icon.as_deref(), Some("\r[\x1b[36m/\x1b[0m]"));
    assert_eq!((next.cycle, next.since_index, next.load_state, next.load_color), (1, 1, 1, 1));
}

#[test]
fn first_config_reads_folder_and_flag() {
    let args = strings(&["ztcm", "./test"]);
    let c = ztcm::Config::new(&args).ok().unwrap();
    assert_eq!((c.query.as_str(), c.flag.as_str()), ("./test", ""));
    let args = strings(&["ztcm", "./test", "-r"]);
    let c = ztcm::Config::new(&args).ok().unwrap();
    assert!(c.wants_recursion());
    assert_eq!(ztcm::Config::new(&strings(&["ztcm"])).err(), Some("not enough arguments"));
    assert_eq!(
        ztcm::Config::new(&strings(&["a", "b", "c", "d", "e", "f"])).err(),
        Some("too many arguments")
    );
    assert_eq!(ztcm::Config::new(&strings(&["ztcm", "-h"])).err(), Some("help"));
    assert_eq!(ztcm::query_folders(&strings(&["ztcm", "./test", "-r"])), ["ztcm", "./test"]);
    assert_eq!(
        ztcm::css_files(strings(&["a.css", "b.scss", "c.module.css"])),
        ["a.css", "c.module.css"]
    );
    assert_eq!(ztcm::recursive_css_pattern("./test".to_string()), "./test/**/*.css");
}

#[test]
fn middle_config_scans_arguments() {
    let args = strings(&["ztcm", "./test", "-w", "2"]);
    let c = MidConfig::new_args(&args).ok().unwrap();
    assert_eq!(c.query, "./test");
    assert_eq!(c.flags, ["-w", "2"]);
    assert!(!c.bad_delay());
    match c.watch_flags() {
        (false, WatchDelay::Given(d)) => assert_eq!(d, "2"),
        _ => panic!("unexpected watch flags"),
    }
    assert_eq!(MidConfig::new_args(&strings(&["ztcm", "-help"])).err(), Some("Help flag called"));
    assert_eq!(MidConfig::new_args(&strings(&["ztcm"])).err(), Some("not enough arguments"));
    assert_eq!(
        MidConfig::new_args(&strings(&["a", "b", "c", "d", "e", "f"])).err(),
        Some("too many arguments")
    );
    // A dashed argument before any folder contains the empty folder and is dropped.
    let c = MidConfig::new_args(&strings(&["ztcm", "-r", "dir"])).ok().unwrap();
    assert_eq!((c.query.as_str(), c.flags.len()), ("dir", 0));
    let c = MidConfig::new_args(&strings(&["ztcm", "dir", "-w", "2x"])).ok().unwrap();
    assert!(c.bad_delay());
}

fn options(args: &[&str]) -> Result<ztcm::run::resolve_input::RunOptions, FlagError> {
    let owned = strings(args);
    let config = RunConfig::new_args(&owned).ok().unwrap();
    match config.flag_panic() {
        Some(e) => Err(e),
        None => config.run_options(),
    }
}

#[test]
fn run_options_from_flags() {
    let o = options(&["ztcm", "test"]).ok().unwrap();
    assert!(!o.recursive && !o.cc_flag && !o.kc_flag);
    assert_eq!((o.pattern.as_str(), o.out_dir.as_str()), (".module.css", ""));
    assert!(matches!(o.watch_delay, WatchDelay::Off));
    assert_eq!((o.cycles_per_refresh, o.threads), (0, 1));

    let o = options(&["ztcm", "test", "-w"]).ok().unwrap();
    assert!(matches!(o.watch_delay, WatchDelay::Default));
    assert_eq!(o.cycles_per_refresh, 90);

    let o = options(&["ztcm", "test", "-w", "2", "120"]).ok().unwrap();
    match o.watch_delay {
        WatchDelay::Given(d) => assert_eq!(d, "2"),
        _ => panic!("delay expected"),
    }
    assert_eq!(o.cycles_per_refresh, 120);

    let o = options(&["ztcm", "test", "-r", "-c", "-m", "4", "-o", "out", "-p", ".scss"]).ok().unwrap();
    assert!(o.recursive && o.cc_flag);
    assert_eq!((o.threads, o.out_dir.as_str(), o.pattern.as_str()), (4, "out", ".scss"));

    let o = options(&["ztcm", "test", "-m"]).ok().unwrap();
    assert_eq!(o.threads, 2);
    let d = get_defaults();
    assert_eq!((d.pattern.as_str(), d.re_index, d.threads), (".module.css", 90, 2));
}

#[test]
fn run_options_errors() {
    assert_eq!(options(&["ztcm", "test", "-o"]).err(), Some(FlagError::NoOutputDir));
    assert_eq!(options(&["ztcm", "test", "-p"]).err(), Some(FlagError::NoPattern));
    assert_eq!(options(&["ztcm", "test", "-m", "9x"]).err(), Some(FlagError::BadThreads));
    assert_eq!(options(&["ztcm", "test", "-w", "1.5.2"]).err(), Some(FlagError::BadDelay));
    assert_eq!(options(&["ztcm", "test", "-w", "1", "99999999999"]).err(), Some(FlagError::BadCycles));
    assert_eq!(options(&["ztcm", "test", "-c", "-k"]).err(), Some(FlagError::CamelAndKebab));
    assert_eq!(FlagError::NoPattern.message(), "No pattern specified");
    assert_eq!(
        RunConfig::new_args(&strings(&["ztcm", "--help"])).err(),
        Some("Help flag called")
    );
    let thirteen: Vec<String> = (0..13).map(|i| format!("a{}", i)).collect();
    assert_eq!(RunConfig::new_args(&thirteen).err(), Some("too many arguments"));
}

#[test]
fn text_operations() {
    assert!(contains_text("a-b", "-"));
    assert!(contains_text("abc", ""));
    assert!(!contains_text("ab", "abc"));
    assert!(ends_with_text("x.css", ".css"));
    assert!(!ends_with_text("x.scss.txt", ".css"));
    assert_eq!(trim_text("\t  a b \n"), "a b");
    assert_eq!(trim_text("\u{2003}x\u{3000}"), "x");
    assert_eq!(split_char("a--b", '-'), ["a", "", "b"]);
    assert_eq!(split_char("", '-'), [""]);
    assert_eq!(parse_i32("+5"), Some(5));
    assert_eq!(parse_i32("-2147483648"), Some(i32::MIN));
    assert_eq!(parse_i32("2147483648"), None);
    assert_eq!(parse_i32("-"), None);
    assert_eq!(parse_i32(" 1"), None);
    for ok in ["1", "1.5", ".5", "5.", "1e3", "1E-3", "inf", "-Infinity", "+NaN"] {
        assert!(is_float_literal(ok), "{}", ok);
        assert!(ok.parse::<f64>().is_ok());
    }
    for bad in ["", ".", "1e", "2x", "1.5.2", "e5", " 1", "in"] {
        assert!(!is_float_literal(bad), "{}", bad);
        assert!(bad.parse::<f64>().is_err());
    }
}

#[test]
fn splitting_and_joining_restore_the_text() {
    let s = "main-title--bar-";
    let pieces = split_char(s, '-');
    assert_eq!(pieces.join("-"), s);
    assert!(pieces.iter().all(|p| !p.contains('-')));
    assert_eq!("Ab".split_first_char(), ("A", "b"));
    assert_eq!("".split_first_char(), ("", ""));
    assert_eq!("".remove_last(), "");
}

#[test]
fn older_generator_plans() {
    let css = ".a {}\n#b {}\n.a {}\n  .c {}\n";
    assert_eq!(find_classes_or_ids(css), [".a", "#b"]);
    let (lines, outfile) = get_file_data(&"s.css".to_string(), css);
    assert_eq!(lines, ["readonly 'a': string;", "readonly 'b': string;"]);
    assert_eq!(outfile, "s.css.d.ts");
    let plan = first_print_files(&lines, None);
    assert!(plan.write && plan.announce_creation);
    let existing = "readonly 'a': string;\nreadonly 'b': string;".to_string();
    assert!(!first_print_files(&lines, Some(&existing)).write);
    let plans = parse_files(&vec![SourceFile {
        path: "s.css".to_string(),
        css: css.to_string(),
        existing_output: Some(existing),
    }]);
    assert_eq!(plans[0].outfile_name, "s.css.d.ts");
    assert!(!plans[0].plan.as_ref().unwrap().write);
}

#[test]
fn glob_patterns() {
    let p = ".module.css".to_string();
    assert_eq!(glob_pattern("./test".to_string(), &p), "./test/*.module.css");
    assert_eq!(recursive_glob_pattern("./test".to_string(), &p), "./test/**/*.module.css");
}
