use minigrep::Config;
use minigrep::ConfigError;

#[test]
#[should_panic]
fn passing_single_argument() {
    let test_args = vec!["filepath".to_string(), "e1".to_string()];
    match Config::new(&test_args, false) {
        Ok(_) => (),
        Err(e) => panic!("Failed with: {}", e.message()),
    }
}

#[test]
fn passing_two_arguments() {
    let test_args = vec!["filepath".to_string(), "e1".to_string(), "e2".to_string()];
    match Config::new(&test_args, false) {
        Ok(_) => (),
        Err(e) => panic!("Failed with: {}", e.message()),
    }
}

#[test]
fn no_tokens_is_missing_query() {
    let args: Vec<String> = Vec::new();
    assert_eq!(Err(ConfigError::MissingQuery), Config::new(&args, false).map(|_| ()));
}

#[test]
fn only_program_token_is_missing_query() {
    let args = vec!["prog".to_string()];
    assert_eq!(Err(ConfigError::MissingQuery), Config::new(&args, false).map(|_| ()));
}

#[test]
fn query_without_source_is_missing_source() {
    let args = vec!["prog".to_string(), "needle".to_string()];
    assert_eq!(Err(ConfigError::MissingSource), Config::new(&args, false).map(|_| ()));
}

#[test]
fn two_tokens_resolve() {
    let args = vec!["prog".to_string(), "needle".to_string(), "notes.txt".to_string()];
    let config = Config::new(&args, false).unwrap();
    assert_eq!("needle", config.query);
    assert_eq!("notes.txt", config.filename);
    assert!(config.case_sensitive);
}

#[test]
fn extra_tokens_are_ignored() {
    let args = vec![
        "prog".to_string(),
        "needle".to_string(),
        "notes.txt".to_string(),
        "extra".to_string(),
        "more".to_string(),
    ];
    let config = Config::new(&args, false).unwrap();
    assert_eq!("needle", config.query);
    assert_eq!("notes.txt", config.filename);
}

#[test]
fn override_presence_forces_insensitive() {
    let args = vec!["prog".to_string(), "needle".to_string(), "notes.txt".to_string()];
    let config = Config::new(&args, true).unwrap();
    assert!(!config.case_sensitive);
}

#[test]
fn error_messages_describe_the_missing_token() {
    assert_eq!("Didn't get a query string!", ConfigError::MissingQuery.message());
    assert_eq!("Didn't get a input filename!", ConfigError::MissingSource.message());
}
