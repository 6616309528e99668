use minigrep::casing::{apply_fold, CaseFold};
use minigrep::Config;

#[test]
fn build_takes_query_and_file_path_from_positional_arguments() {
    let args = vec![
        "prog".to_string(),
        "needle".to_string(),
        "notes.txt".to_string(),
    ];
    let config = Config::build(&args, true).unwrap();
    assert_eq!("needle", config.query);
    assert_eq!("notes.txt", config.file_path);
    assert!(config.ignore_case);

    let config = Config::build(&args, false).unwrap();
    assert!(!config.ignore_case);
}

#[test]
fn build_ignores_extra_arguments() {
    let args = vec![
        "prog".to_string(),
        "q".to_string(),
        "f".to_string(),
        "extra".to_string(),
    ];
    let config = Config::build(&args, false).unwrap();
    assert_eq!("q", config.query);
    assert_eq!("f", config.file_path);
}

#[test]
fn build_rejects_too_few_arguments() {
    let expected = "Please provide enough arguments representing query and file-path";
    let args = vec!["prog".to_string()];
    assert_eq!(Err(expected), Config::build(&args, false).map(|_| ()));
    let args = vec!["prog".to_string(), "q".to_string()];
    assert_eq!(Err(expected), Config::build(&args, false).map(|_| ()));
    let args: Vec<String> = vec![];
    assert_eq!(Err(expected), Config::build(&args, false).map(|_| ()));
}

#[test]
fn folding_lowercases_only_in_insensitive_mode() {
    assert_eq!("AbC", apply_fold(CaseFold::Sensitive, "AbC"));
    assert_eq!("abc", apply_fold(CaseFold::Insensitive, "AbC"));
    assert_eq!("", apply_fold(CaseFold::Insensitive, ""));
}
