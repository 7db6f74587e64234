use minigrep::config::Config;
use minigrep::run_search;

#[test]
fn test_build_with_ignore_case_flag() {
    let config = Config::build_from(
        "pattern".to_owned(),
        "file.txt".to_owned(),
        true,
        None,
    )
    .unwrap();
    assert!(config.ignore_case());
}

#[test]
fn test_build_with_ignore_case_env_var() {
    let config = Config::build_from(
        "pattern".to_owned(),
        "file.txt".to_owned(),
        false,
        Some("true"),
    )
    .unwrap();
    assert!(config.ignore_case());
}

#[test]
fn test_build_without_ignore_case() {
    let config = Config::build_from(
        "pattern".to_owned(),
        "file.txt".to_owned(),
        false,
        None,
    )
    .unwrap();
    assert!(!config.ignore_case());
}

#[test]
fn build_keeps_query_and_file_path() {
    let config = Config::build_from(
        "pattern".to_owned(),
        "file.txt".to_owned(),
        false,
        None,
    )
    .unwrap();
    assert_eq!("pattern", config.query());
    assert_eq!("file.txt", config.file_path());
}

#[test]
fn ignore_case_resolution() {
    // Flag absent, variable absent: off.
    assert!(!Config::determine_ignore_case(false, None));
    // Flag present: on, whatever the variable holds.
    assert!(Config::determine_ignore_case(true, None));
    assert!(Config::determine_ignore_case(true, Some("false")));
    // Flag absent, variable "true" in any casing: on.
    assert!(Config::determine_ignore_case(false, Some("true")));
    assert!(Config::determine_ignore_case(false, Some("TRUE")));
    assert!(Config::determine_ignore_case(false, Some("TrUe")));
    // Flag absent, any other value: off.
    assert!(!Config::determine_ignore_case(false, Some("false")));
    assert!(!Config::determine_ignore_case(false, Some("1")));
    assert!(!Config::determine_ignore_case(false, Some("")));
    assert!(!Config::determine_ignore_case(false, Some("truthful")));
}

#[test]
fn run_search_follows_the_configuration() {
    let contents = "Rust:\nsafe, fast, productive.\nPick three.\nTrust me.";
    let sensitive = Config::build_from(
        "rUsT".to_owned(),
        "file.txt".to_owned(),
        false,
        None,
    )
    .unwrap();
    assert!(run_search(&sensitive, contents).is_empty());

    let insensitive = Config::build_from(
        "rUsT".to_owned(),
        "file.txt".to_owned(),
        true,
        None,
    )
    .unwrap();
    assert_eq!(vec!["Rust:", "Trust me."], run_search(&insensitive, contents));
}
