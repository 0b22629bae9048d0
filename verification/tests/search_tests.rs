use colored::control::set_override;
use mini_shell::search::{grep, hit_text, matches_line, scan, search, Hit, SearchOptions, SourceFile};

fn lines_of(words: &[&str]) -> Vec<String> {
    words.iter().map(|w| w.to_string()).collect()
}

fn source(path: &str, words: &[&str]) -> SourceFile {
    SourceFile { path: path.to_string(), lines: Some(lines_of(words)) }
}

fn missing(path: &str) -> SourceFile {
    SourceFile { path: path.to_string(), lines: None }
}

fn capped(cap: i32) -> SearchOptions {
    SearchOptions { case_sensitive: true, max_matches: Some(cap) }
}

fn folded() -> SearchOptions {
    SearchOptions { case_sensitive: false, max_matches: None }
}

fn five_hits() -> Vec<&'static str> {
    vec!["x1", "no", "x2", "x3", "", "x4", "x5", "tail"]
}

#[test]
fn default_options_are_case_sensitive_without_a_cap() {
    assert_eq!(SearchOptions::new(), SearchOptions { case_sensitive: true, max_matches: None });
}

#[test]
fn matches_line_is_containment() {
    assert!(matches_line("hello world", "o w", true));
    assert!(!matches_line("hello world", "O W", true));
    assert!(matches_line("anything", "", true));
    assert!(!matches_line("", "a", true));
}

#[test]
fn matches_line_without_case_folds_both_sides() {
    assert!(matches_line("xxabcxx", "ABC", false));
    assert!(matches_line("xxABCxx", "abc", false));
    assert!(!matches_line("Straße", "STRASSE", false));
    assert!(matches_line("ÄÖÜ", "äöü", false));
    assert!(!matches_line("xxabxx", "ABC", false));
}

#[test]
fn scan_reports_line_numbers_from_one_in_order() {
    let lines = lines_of(&["alpha x", "beta", "x-ray", "xx", "none"]);
    assert_eq!(scan(&lines, "x", &SearchOptions::new()), vec![1, 3, 4]);
    assert_eq!(scan(&lines, "q", &SearchOptions::new()), Vec::<usize>::new());
    assert_eq!(scan(&vec![], "x", &SearchOptions::new()), Vec::<usize>::new());
}

#[test]
fn scan_stops_at_the_cap() {
    let lines = lines_of(&five_hits());
    assert_eq!(scan(&lines, "x", &capped(1)), vec![1]);
    assert_eq!(scan(&lines, "x", &capped(2)), vec![1, 3]);
    assert_eq!(scan(&lines, "x", &capped(3)), vec![1, 3, 4]);
    assert_eq!(scan(&lines, "x", &capped(5)), vec![1, 3, 4, 6, 7]);
    assert_eq!(scan(&lines, "x", &capped(6)), vec![1, 3, 4, 6, 7]);
    assert_eq!(scan(&lines, "x", &capped(i32::MAX)), vec![1, 3, 4, 6, 7]);
}

#[test]
fn scan_with_a_cap_below_one_reads_one_line() {
    let lines = lines_of(&five_hits());
    assert_eq!(scan(&lines, "x", &capped(0)), vec![1]);
    assert_eq!(scan(&lines, "x", &capped(-3)), vec![1]);
    let late = lines_of(&["no", "x"]);
    assert_eq!(scan(&late, "x", &capped(0)), Vec::<usize>::new());
    assert_eq!(scan(&late, "x", &capped(i32::MIN)), Vec::<usize>::new());
}

#[test]
fn case_insensitive_search_matches_lower_case_lines() {
    let files = vec![source("f", &["nothing", "has abc inside", "ABC too", "AbC", "ab c"])];
    let hits = search("ABC", &files, &folded());
    assert_eq!(
        hits,
        vec![
            Hit { file: 0, line_number: 2 },
            Hit { file: 0, line_number: 3 },
            Hit { file: 0, line_number: 4 }
        ]
    );
    assert_eq!(search("ABC", &files, &SearchOptions::new()), vec![Hit { file: 0, line_number: 3 }]);
}

#[test]
fn search_goes_through_the_files_in_the_order_given() {
    let files = vec![source("b", &["x", "y", "x"]), source("a", &["y", "x"])];
    let hits = search("x", &files, &SearchOptions::new());
    assert_eq!(
        hits,
        vec![
            Hit { file: 0, line_number: 1 },
            Hit { file: 0, line_number: 3 },
            Hit { file: 1, line_number: 2 }
        ]
    );
}

#[test]
fn search_twice_gives_the_same_hits() {
    let files = vec![source("a", &["x", "y", "x"]), missing("gone"), source("b", &["y", "x"])];
    let first = search("x", &files, &SearchOptions::new());
    let second = search("x", &files, &SearchOptions::new());
    assert_eq!(first, second);
    set_override(false);
    assert_eq!(grep("x", &files, &SearchOptions::new()), grep("x", &files, &SearchOptions::new()));
}

#[test]
fn search_passes_over_files_that_could_not_be_opened() {
    let files = vec![missing("gone"), source("a", &["x"]), missing("also gone")];
    assert_eq!(search("x", &files, &SearchOptions::new()), vec![Hit { file: 1, line_number: 1 }]);
    assert_eq!(search("x", &vec![missing("gone")], &SearchOptions::new()), vec![]);
    assert_eq!(search("x", &vec![], &SearchOptions::new()), vec![]);
}

#[test]
fn the_cap_holds_for_each_file_on_its_own() {
    let files = vec![source("one", &five_hits()), source("two", &five_hits())];
    let hits = search("x", &files, &capped(2));
    assert_eq!(hits.len(), 4);
    assert_eq!(
        hits,
        vec![
            Hit { file: 0, line_number: 1 },
            Hit { file: 0, line_number: 3 },
            Hit { file: 1, line_number: 1 },
            Hit { file: 1, line_number: 3 }
        ]
    );
    set_override(false);
    assert_eq!(grep("x", &files, &capped(2)).len(), 4);
}

#[test]
fn the_cap_leaves_a_file_with_fewer_hits_whole() {
    let files = vec![source("one", &["x", "y"]), source("two", &five_hits())];
    let hits = search("x", &files, &capped(3));
    assert_eq!(hits.len(), 4);
}

#[test]
fn hit_text_joins_path_number_and_line() {
    assert_eq!(hit_text("src/a.txt", 12, "let x = 1;"), "src/a.txt:12 let x = 1;");
    assert_eq!(hit_text("", 1, ""), ":1 ");
    assert_eq!(hit_text("p", 1000000, " spaced "), "p:1000000  spaced ");
}

#[test]
fn grep_writes_every_hit_in_order() {
    set_override(false);
    let files = vec![source("b.txt", &["x", "y", "x y"]), missing("gone"), source("a.txt", &["y", "x"])];
    assert_eq!(
        grep("x", &files, &SearchOptions::new()),
        vec!["b.txt:1 x".to_string(), "b.txt:3 x y".to_string(), "a.txt:2 x".to_string()]
    );
}

#[test]
fn grep_without_hits_writes_nothing() {
    set_override(false);
    assert_eq!(grep("q", &vec![source("a", &["x"])], &SearchOptions::new()), Vec::<String>::new());
}
