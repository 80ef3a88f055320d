use ztcm::parse_and_printout::print::print_files;
use ztcm::resolve_input::WatchDelay;
use ztcm::run::get_file_paths::{glob_pattern, recursive_glob_pattern};
use ztcm::run::resolve_input::{Config, RunOptions};

fn run_options(args: &[&str]) -> (String, RunOptions) {
    let owned: Vec<String> = args.iter().map(|s| s.to_string()).collect();
    let config = Config::new_args(&owned).ok().unwrap();
    assert!(config.flag_panic().is_none());
    let options = config.run_options().ok().unwrap();
    (config.query.clone(), options)
}

#[test]
fn test_print() {
    let data_set = vec![
        "readonly 'test': string;".to_string(),
        "readonly 'test2': string;".to_string(),
    ];
    let plan = print_files(&data_set, None);
    assert!(plan.write);
    assert_eq!(
        plan.contents,
        "declare const styles: {\n readonly 'test': string;\n readonly 'test2': string;\n};\nexport default styles;"
    );
}

#[test]
fn data() {
    let (query, options) = run_options(&["ztcm", "test"]);
    assert!(!options.recursive);
    assert!(matches!(options.watch_delay, WatchDelay::Off));
    assert_eq!(glob_pattern(query, &options.pattern), "test/*.module.css");
}

#[test]
fn data_rec() {
    let (query, options) = run_options(&["ztcm", "test", "-r"]);
    assert!(options.recursive);
    assert!(matches!(options.watch_delay, WatchDelay::Off));
    assert_eq!(recursive_glob_pattern(query, &options.pattern), "test/**/*.module.css");
}

#[test]
fn data_watch() {
    let (_, options) = run_options(&["ztcm", "test", "-w"]);
    assert!(matches!(options.watch_delay, WatchDelay::Default));
    assert_eq!(options.cycles_per_refresh, 90);
}

#[test]
fn data_watch_cycle() {
    let (_, options) = run_options(&["ztcm", "test", "-w", "2", "120"]);
    match options.watch_delay {
        WatchDelay::Given(d) => assert_eq!(d.parse::<f64>().unwrap(), 2.0),
        _ => panic!("a delay was given"),
    }
    assert_eq!(options.cycles_per_refresh, 120);
}
