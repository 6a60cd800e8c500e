use text_analyzer::config::Config;
use text_analyzer::counts::aggregate;
use text_analyzer::errors::CliError;
use text_analyzer::stats::analyze;
use text_analyzer::words::filter_words;
use text_analyzer::words::is_blank;
use text_analyzer::words::tokenize;

fn plain_config() -> Config {
    Config { file_path: "input.txt".to_string(), min_length: 0, starts_with: None }
}

#[test]
fn tokenize_splits_on_whitespace_runs() {
    let toks = tokenize("  hello \t world\nagain ");
    assert_eq!(toks, vec!["hello".to_string(), "world".to_string(), "again".to_string()]);
}

#[test]
fn tokenize_handles_unicode_whitespace() {
    let toks = tokenize("one\u{00A0}two\u{2003}three");
    assert_eq!(toks, vec!["one".to_string(), "two".to_string(), "three".to_string()]);
}

#[test]
fn filter_lowercases_tokens() {
    let toks = tokenize("HeLLo WORLD");
    let words = filter_words(&toks, 0, None);
    assert_eq!(words, vec!["hello".to_string(), "world".to_string()]);
}

#[test]
fn filter_lowercases_non_ascii() {
    let toks = tokenize("ÄÖÜ Straße");
    let words = filter_words(&toks, 0, None);
    assert_eq!(words, vec!["äöü".to_string(), "straße".to_string()]);
}

#[test]
fn filter_min_length_is_strict() {
    let toks = tokenize("abc abcd");
    let words = filter_words(&toks, 3, None);
    assert_eq!(words, vec!["abcd".to_string()]);
}

#[test]
fn filter_prefix_matches_case_insensitively() {
    let toks = tokenize("Lion lion cat LOUD");
    let words = filter_words(&toks, 0, Some('l'));
    assert_eq!(words, vec!["lion".to_string(), "lion".to_string(), "loud".to_string()]);
}

#[test]
fn aggregate_counts_and_lengths() {
    let words = vec!["x".to_string(), "yy".to_string(), "x".to_string()];
    let (table, len_sum) = aggregate(&words);
    assert_eq!(len_sum, 4);
    let total: usize = table.iter().map(|p| p.1).sum();
    assert_eq!(total, 3);
    assert_eq!(table.len(), 2);
    assert!(table.contains(&("x".to_string(), 2)));
    assert!(table.contains(&("yy".to_string(), 1)));
}

#[test]
fn is_blank_on_whitespace_only() {
    assert!(is_blank(""));
    assert!(is_blank(" \t\n\r "));
    assert!(!is_blank(" a "));
}

#[test]
fn totals_match_qualifying_words() {
    let cfg = plain_config();
    let stats = analyze("x y x z y x", &cfg).unwrap();
    assert_eq!(stats.total_words, 6);
    assert_eq!(stats.unique_words, 3);
}

#[test]
fn tie_break_picks_lexicographically_greatest() {
    let cfg = plain_config();
    let stats = analyze("a a b b", &cfg).unwrap();
    assert_eq!(stats.total_words, 4);
    assert_eq!(stats.unique_words, 2);
    assert_eq!(stats.average_length, 1);
    assert_eq!(stats.most_common, Some(("b".to_string(), 2)));
}

#[test]
fn quick_brown_fox_scenario() {
    let cfg = plain_config();
    let stats = analyze("The quick brown fox jumps over the lazy dog", &cfg).unwrap();
    assert_eq!(stats.total_words, 9);
    assert_eq!(stats.unique_words, 8);
    assert_eq!(stats.average_length, 4);
    assert_eq!(stats.most_common, Some(("the".to_string(), 2)));
}

#[test]
fn empty_file_is_rejected() {
    let cfg = plain_config();
    assert_eq!(analyze("", &cfg), Err(CliError::EmptyFile));
    assert_eq!(analyze(" \t\n  ", &cfg), Err(CliError::EmptyFile));
}

#[test]
fn min_length_four_excludes_lion() {
    let cfg = Config { file_path: "input.txt".to_string(), min_length: 4, starts_with: None };
    let stats = analyze("cat dog lion", &cfg).unwrap();
    assert_eq!(stats.total_words, 0);
    assert_eq!(stats.unique_words, 0);
    assert_eq!(stats.average_length, 0);
    assert_eq!(stats.most_common, None);
}

#[test]
fn min_length_boundary_includes_one_longer() {
    let cfg = Config { file_path: "input.txt".to_string(), min_length: 4, starts_with: None };
    let stats = analyze("lion tiger", &cfg).unwrap();
    assert_eq!(stats.total_words, 1);
    assert_eq!(stats.most_common, Some(("tiger".to_string(), 1)));
}

#[test]
fn prefix_filter_case_insensitive_both_sides() {
    let lower_flag = Config { file_path: "f".to_string(), min_length: 0, starts_with: Some('l') };
    let stats = analyze("Lion lamb cow", &lower_flag).unwrap();
    assert_eq!(stats.total_words, 2);
    let from_upper_flag = Config::new(vec![
        "prog".to_string(),
        "f".to_string(),
        "--starts-with".to_string(),
        "L".to_string(),
    ])
    .unwrap();
    assert_eq!(from_upper_flag.starts_with, Some('l'));
    let stats2 = analyze("Lion lamb cow", &from_upper_flag).unwrap();
    assert_eq!(stats2.total_words, stats.total_words);
}

#[test]
fn average_rounds_half_away_from_zero() {
    let cfg = plain_config();
    // lengths 3 and 4: 3.5 rounds to 4
    let stats = analyze("abc abcd", &cfg).unwrap();
    assert_eq!(stats.average_length, 4);
    // lengths 1 and 2: 1.5 rounds to 2
    let stats2 = analyze("a bc", &cfg).unwrap();
    assert_eq!(stats2.average_length, 2);
}

#[test]
fn same_input_gives_same_output() {
    let cfg = plain_config();
    let a = analyze("to be or not to be", &cfg).unwrap();
    let b = analyze("to be or not to be", &cfg).unwrap();
    assert_eq!(a.total_words, b.total_words);
    assert_eq!(a.unique_words, b.unique_words);
    assert_eq!(a.average_length, b.average_length);
    assert_eq!(a.most_common, b.most_common);
}
