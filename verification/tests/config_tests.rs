use minigrep::matching_lines;
use minigrep::Config;
use minigrep::ConfigError;

#[test]
fn build_fails_with_only_the_program_name() {
    let args = vec!["prog".to_string()];
    assert_eq!(
        Err(ConfigError::InsufficientArguments),
        Config::build(&args, false).map(|c| c.query)
    );
}

#[test]
fn build_fails_without_a_file_path() {
    let args = vec!["prog".to_string(), "query".to_string()];
    assert!(matches!(
        Config::build(&args, false),
        Err(ConfigError::InsufficientArguments)
    ));
}

#[test]
fn build_extracts_query_and_file_path() {
    let args = vec![
        "prog".to_string(),
        "needle".to_string(),
        "notes.txt".to_string(),
    ];
    let config = Config::build(&args, false).unwrap();
    assert_eq!("needle", config.query);
    assert_eq!("notes.txt", config.file_path);
    assert!(!config.ignore_case);
}

#[test]
fn build_passes_the_toggle_through() {
    let args = vec![
        "prog".to_string(),
        "needle".to_string(),
        "notes.txt".to_string(),
    ];
    assert!(Config::build(&args, true).unwrap().ignore_case);
    assert!(!Config::build(&args, false).unwrap().ignore_case);
}

#[test]
fn insufficient_arguments_message() {
    assert_eq!(
        "not enough arguments!",
        ConfigError::InsufficientArguments.message()
    );
}

#[test]
fn matching_lines_dispatches_on_the_toggle() {
    let contents = "Rust:\nTrust me.";
    let args = vec![
        "prog".to_string(),
        "rUsT".to_string(),
        "notes.txt".to_string(),
    ];
    let sensitive = Config::build(&args, false).unwrap();
    let insensitive = Config::build(&args, true).unwrap();
    assert_eq!(Vec::<&str>::new(), matching_lines(&sensitive, contents));
    assert_eq!(
        vec!["Rust:", "Trust me."],
        matching_lines(&insensitive, contents)
    );
}
