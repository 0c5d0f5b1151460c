use minigrep::{run, Config, ConfigError, CASE_INSENSITIVE_VARIABLE};

fn args(items: &[&str]) -> Vec<String> {
    items.iter().map(|item| item.to_string()).collect()
}

#[test]
fn three_arguments_without_override_are_case_sensitive() {
    let config = Config::new(&args(&["prog", "query", "target"]), false).unwrap();
    assert_eq!("query", config.query);
    assert_eq!("target", config.filename);
    assert!(config.case_sensitive);
}

#[test]
fn three_arguments_with_override_are_case_insensitive() {
    let config = Config::new(&args(&["prog", "query", "target"]), true).unwrap();
    assert_eq!("query", config.query);
    assert_eq!("target", config.filename);
    assert!(!config.case_sensitive);
}

#[test]
fn four_arguments_with_flag_are_case_insensitive() {
    let config = Config::new(&args(&["prog", "-i", "query", "target"]), false).unwrap();
    assert_eq!("query", config.query);
    assert_eq!("target", config.filename);
    assert!(!config.case_sensitive);
}

#[test]
fn four_arguments_without_flag_are_case_sensitive() {
    let config = Config::new(&args(&["prog", "x", "query", "target"]), false).unwrap();
    assert_eq!("query", config.query);
    assert_eq!("target", config.filename);
    assert!(config.case_sensitive);
}

#[test]
fn four_arguments_with_override_are_case_insensitive_whatever_the_flag() {
    let with_flag = Config::new(&args(&["prog", "-i", "query", "target"]), true).unwrap();
    assert!(!with_flag.case_sensitive);
    assert_eq!("query", with_flag.query);
    assert_eq!("target", with_flag.filename);
    let without_flag = Config::new(&args(&["prog", "x", "query", "target"]), true).unwrap();
    assert!(!without_flag.case_sensitive);
    assert_eq!("query", without_flag.query);
    assert_eq!("target", without_flag.filename);
}

#[test]
fn fewer_than_three_arguments_are_refused() {
    for case_insensitive_set in [false, true] {
        assert_eq!(
            Err(ConfigError::InsufficientArguments),
            Config::new(&args(&[]), case_insensitive_set)
        );
        assert_eq!(
            Err(ConfigError::InsufficientArguments),
            Config::new(&args(&["prog"]), case_insensitive_set)
        );
        assert_eq!(
            Err(ConfigError::InsufficientArguments),
            Config::new(&args(&["prog", "onlyquery"]), case_insensitive_set)
        );
        assert_eq!(
            Err(ConfigError::InsufficientArguments),
            Config::new(&args(&["prog", "-i"]), case_insensitive_set)
        );
    }
}

#[test]
fn the_flag_is_found_anywhere_in_its_element() {
    let config = Config::new(&args(&["prog", "x-it", "query", "target"]), false).unwrap();
    assert!(!config.case_sensitive);
    let config = Config::new(&args(&["prog", "--ignore", "query", "target"]), false).unwrap();
    assert!(!config.case_sensitive);
    let config = Config::new(&args(&["prog", "-I", "query", "target"]), false).unwrap();
    assert!(config.case_sensitive);
    let config = Config::new(&args(&["prog", "i-", "query", "target"]), false).unwrap();
    assert!(config.case_sensitive);
    let config = Config::new(&args(&["prog", "", "query", "target"]), false).unwrap();
    assert!(config.case_sensitive);
}

#[test]
fn a_flag_among_three_arguments_is_the_query() {
    let config = Config::new(&args(&["prog", "-i", "target"]), false).unwrap();
    assert_eq!("-i", config.query);
    assert_eq!("target", config.filename);
    assert!(config.case_sensitive);
}

#[test]
fn more_than_four_arguments_are_read_as_three() {
    let config = Config::new(&args(&["prog", "-i", "query", "target", "extra"]), false).unwrap();
    assert_eq!("-i", config.query);
    assert_eq!("query", config.filename);
    assert!(config.case_sensitive);
    let config =
        Config::new(&args(&["prog", "query", "target", "more", "and", "more"]), true).unwrap();
    assert_eq!("query", config.query);
    assert_eq!("target", config.filename);
    assert!(!config.case_sensitive);
}

#[test]
fn empty_query_and_target_are_accepted() {
    let config = Config::new(&args(&["prog", "", ""]), false).unwrap();
    assert_eq!("", config.query);
    assert_eq!("", config.filename);
    assert!(config.case_sensitive);
}

#[test]
fn insufficient_arguments_has_a_message() {
    assert_eq!("not enough arguments", ConfigError::InsufficientArguments.message());
}

#[test]
fn the_override_variable_is_named() {
    assert_eq!("CASE_INSENSITIVE", CASE_INSENSITIVE_VARIABLE);
}

#[test]
fn run_searches_as_configured() {
    let contents = "Rust:\nsafe, fast, productive.\nPick three.\nTrust me.";
    let exact = Config::new(&args(&["prog", "rust", "poem.txt"]), false).unwrap();
    assert_eq!(vec!["Trust me."], run(&exact, contents));
    let folded = Config::new(&args(&["prog", "rust", "poem.txt"]), true).unwrap();
    assert_eq!(vec!["Rust:", "Trust me."], run(&folded, contents));
    let flagged = Config::new(&args(&["prog", "-i", "RUST", "poem.txt"]), false).unwrap();
    assert_eq!(vec!["Rust:", "Trust me."], run(&flagged, contents));
    let unflagged = Config::new(&args(&["prog", "-v", "RUST", "poem.txt"]), false).unwrap();
    assert_eq!(Vec::<&str>::new(), run(&unflagged, contents));
}

#[test]
fn run_on_empty_text_yields_nothing() {
    let config = Config {
        query: String::from("anything"),
        filename: String::from("empty.txt"),
        case_sensitive: false,
    };
    assert_eq!(Vec::<&str>::new(), run(&config, ""));
}
