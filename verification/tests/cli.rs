use text_analyzer::chars::fold_char_exec;
use text_analyzer::chars::str_lex_lt;
use text_analyzer::config::Config;
use text_analyzer::errors::diagnostic;
use text_analyzer::errors::exit_code;
use text_analyzer::errors::CliError;
use text_analyzer::numbers::parse_usize;
use text_analyzer::report::render_report;
use text_analyzer::stats::analyze;

fn args(list: &[&str]) -> Vec<String> {
    list.iter().map(|s| s.to_string()).collect()
}

#[test]
fn missing_file_path() {
    let r = Config::new(args(&["prog"]));
    assert_eq!(r, Err(CliError::MissingFilePath));
    assert_eq!(exit_code(&CliError::MissingFilePath), 1);
}

#[test]
fn file_path_taken_verbatim() {
    let cfg = Config::new(args(&["prog", "some/file.txt"])).unwrap();
    assert_eq!(cfg.file_path, "some/file.txt");
    assert_eq!(cfg.min_length, 0);
    assert_eq!(cfg.starts_with, None);
}

#[test]
fn min_length_flag_parses() {
    let cfg = Config::new(args(&["prog", "f", "--min-length", "7"])).unwrap();
    assert_eq!(cfg.min_length, 7);
}

#[test]
fn min_length_accepts_plus_sign() {
    let cfg = Config::new(args(&["prog", "f", "--min-length", "+5"])).unwrap();
    assert_eq!(cfg.min_length, 5);
}

#[test]
fn min_length_missing_value() {
    let r = Config::new(args(&["prog", "f", "--min-length"]));
    assert_eq!(
        r,
        Err(CliError::InvalidMinLength {
            value: "".to_string(),
            reason: "Missing value".to_string()
        })
    );
    let code = exit_code(&r.unwrap_err());
    assert_eq!(code, 2);
}

#[test]
fn min_length_not_a_number() {
    let r = Config::new(args(&["prog", "f", "--min-length", "abc"]));
    assert_eq!(
        r,
        Err(CliError::InvalidMinLength {
            value: "abc".to_string(),
            reason: "Not a number".to_string()
        })
    );
}

#[test]
fn min_length_value_may_be_flag_shaped() {
    let r = Config::new(args(&["prog", "f", "--min-length", "--starts-with"]));
    assert_eq!(
        r,
        Err(CliError::InvalidMinLength {
            value: "--starts-with".to_string(),
            reason: "Not a number".to_string()
        })
    );
}

#[test]
fn min_length_overflow_is_not_a_number() {
    let max = usize::MAX.to_string();
    let cfg = Config::new(args(&["prog", "f", "--min-length", &max])).unwrap();
    assert_eq!(cfg.min_length, usize::MAX);
    let too_big = "18446744073709551616";
    let r = Config::new(args(&["prog", "f", "--min-length", too_big]));
    assert_eq!(
        r,
        Err(CliError::InvalidMinLength {
            value: too_big.to_string(),
            reason: "Not a number".to_string()
        })
    );
}

#[test]
fn starts_with_stores_folded_letter() {
    let cfg = Config::new(args(&["prog", "f", "--starts-with", "Zebra"])).unwrap();
    assert_eq!(cfg.starts_with, Some('z'));
}

#[test]
fn starts_with_missing_value() {
    let r = Config::new(args(&["prog", "f", "--starts-with"]));
    assert_eq!(
        r,
        Err(CliError::InvalidStartsWith {
            value: "".to_string(),
            reason: "Missing value".to_string()
        })
    );
    assert_eq!(exit_code(&r.unwrap_err()), 3);
}

#[test]
fn starts_with_empty_value() {
    let r = Config::new(args(&["prog", "f", "--starts-with", ""]));
    assert_eq!(
        r,
        Err(CliError::InvalidStartsWith {
            value: "".to_string(),
            reason: "Not a char".to_string()
        })
    );
}

#[test]
fn starts_with_must_be_a_letter() {
    let r = Config::new(args(&["prog", "f", "--starts-with", "9"]));
    assert_eq!(
        r,
        Err(CliError::InvalidStartsWith {
            value: "9".to_string(),
            reason: "Must be a letter".to_string()
        })
    );
}

#[test]
fn starts_with_accepts_non_ascii_letter() {
    let cfg = Config::new(args(&["prog", "f", "--starts-with", "édile"])).unwrap();
    assert_eq!(cfg.starts_with, Some('é'));
}

#[test]
fn unrecognized_arguments_are_skipped() {
    let cfg = Config::new(args(&["prog", "f", "--verbose", "x", "--min-length", "2"])).unwrap();
    assert_eq!(cfg.min_length, 2);
}

#[test]
fn later_flags_override_earlier() {
    let cfg = Config::new(args(&["prog", "f", "--min-length", "2", "--min-length", "9"])).unwrap();
    assert_eq!(cfg.min_length, 9);
}

#[test]
fn parse_usize_exactly() {
    assert_eq!(parse_usize("0"), Some(0));
    assert_eq!(parse_usize("042"), Some(42));
    assert_eq!(parse_usize("+7"), Some(7));
    assert_eq!(parse_usize(""), None);
    assert_eq!(parse_usize("+"), None);
    assert_eq!(parse_usize("-1"), None);
    assert_eq!(parse_usize("1 2"), None);
    assert_eq!(parse_usize("12a"), None);
}

#[test]
fn exit_codes_cover_every_failure() {
    assert_eq!(exit_code(&CliError::MissingFilePath), 1);
    assert_eq!(
        exit_code(&CliError::InvalidMinLength {
            value: "x".to_string(),
            reason: "Not a number".to_string()
        }),
        2
    );
    assert_eq!(
        exit_code(&CliError::InvalidStartsWith {
            value: "x".to_string(),
            reason: "Must be a letter".to_string()
        }),
        3
    );
    assert_eq!(exit_code(&CliError::FileNotFound("nope.txt".to_string())), 4);
    assert_eq!(exit_code(&CliError::FileReadPermission("p.txt".to_string())), 5);
    assert_eq!(exit_code(&CliError::FileReadError("bad bytes".to_string())), 6);
    assert_eq!(exit_code(&CliError::EmptyFile), 7);
}

#[test]
fn nonexistent_file_diagnostic_names_the_path() {
    let err = CliError::FileNotFound("missing/notes.txt".to_string());
    assert_eq!(exit_code(&err), 4);
    let line = diagnostic(&err);
    assert_eq!(line, "Error: File 'missing/notes.txt' not found.");
    assert!(line.contains("missing/notes.txt"));
}

#[test]
fn diagnostics_carry_value_and_reason() {
    let err = CliError::InvalidMinLength {
        value: "abc".to_string(),
        reason: "Not a number".to_string(),
    };
    assert_eq!(diagnostic(&err), "Error: Invalid --min-length 'abc': Not a number");
    assert_eq!(diagnostic(&CliError::EmptyFile), "Error: File is empty.");
    assert_eq!(
        diagnostic(&CliError::FileReadPermission("sec.txt".to_string())),
        "Error: Permission denied reading 'sec.txt'."
    );
}

#[test]
fn report_lists_every_field_in_order() {
    let cfg = Config { file_path: "t.txt".to_string(), min_length: 0, starts_with: None };
    let stats = analyze("a a b b", &cfg).unwrap();
    let report = render_report(&cfg, &stats);
    assert_eq!(
        report,
        "=== Text Analyzer Results ===\n\
         File: t.txt\n\
         Filters Applied:\n\
         \x20 Minimum length: 0\n\
         \nStats:\n\
         \x20 Total word count: 4\n\
         \x20 Number of unique words: 2\n\
         \x20 Average word length: 1 chars\n\
         \x20 Most common word: \"b\" with count 2\n"
    );
}

#[test]
fn report_shows_starts_with_when_set() {
    let cfg = Config { file_path: "t.txt".to_string(), min_length: 4, starts_with: Some('c') };
    let stats = analyze("cat dog lion", &cfg).unwrap();
    let report = render_report(&cfg, &stats);
    assert!(report.contains("  Starts with: c\n"));
    assert!(report.contains("  Minimum length: 4\n"));
    assert!(report.contains("  No words found.\n"));
}

#[test]
fn lexicographic_comparison_orders_strings() {
    assert!(str_lex_lt("a", "b"));
    assert!(!str_lex_lt("b", "a"));
    assert!(str_lex_lt("ab", "b"));
    assert!(str_lex_lt("a", "ab"));
    assert!(!str_lex_lt("ab", "ab"));
    assert!(str_lex_lt("", "a"));
}

#[test]
fn fold_char_only_touches_ascii_uppercase() {
    assert_eq!(fold_char_exec('A'), 'a');
    assert_eq!(fold_char_exec('Z'), 'z');
    assert_eq!(fold_char_exec('a'), 'a');
    assert_eq!(fold_char_exec('9'), '9');
    assert_eq!(fold_char_exec('É'), 'É');
}
