use minigrep::config::Config;
use minigrep::search::{matching_lines, search, search_case_insensitive};
use minigrep::text::lines;

#[test]
fn case_sensitive() {
    let query = "fast";
    let content = "\
Rust:
safe, fast and productive
pick three.";

    assert_eq!(vec!["safe, fast and productive"], search(query, content));
}

#[test]
fn case_insensitive() {
    let query = "rUsT";
    let content = "\
Rust:
safe, fast and productive
pick three.
Trust me.";

    assert_eq!(
        vec!["Rust:", "Trust me."],
        search_case_insensitive(query, content)
    );
}

#[test]
fn empty_query_returns_every_line() {
    let content = "one\n\ntwo\r\nthree\n";
    assert_eq!(vec!["one", "", "two", "three"], search("", content));
}

#[test]
fn empty_content_has_no_matches() {
    assert!(search("", "").is_empty());
    assert!(search_case_insensitive("a", "").is_empty());
}

#[test]
fn results_keep_file_order_and_duplicates() {
    let content = "b1 x\na\nb2 x\nb1 x";
    let r = search("x", content);
    assert_eq!(vec!["b1 x", "b2 x", "b1 x"], r);
    for line in &r {
        assert!(line.contains("x"));
    }
}

#[test]
fn case_insensitive_finds_at_least_the_exact_matches() {
    let content = "Rust\nrust\nRUST\nrUsT\nnothing";
    let exact = search("rust", content);
    let folded = search_case_insensitive("rust", content);
    assert_eq!(vec!["rust"], exact);
    assert_eq!(vec!["Rust", "rust", "RUST", "rUsT"], folded);
}

#[test]
fn query_case_does_not_change_case_insensitive_result() {
    let content = "Rust:\nsafe, fast and productive\npick three.\nTrust me.";
    assert_eq!(
        search_case_insensitive("rust", content),
        search_case_insensitive("RUST", content)
    );
}

#[test]
fn searching_twice_gives_the_same_lines() {
    let content = "alpha\nbeta\nalphabet";
    assert_eq!(search("alpha", content), search("alpha", content));
    assert_eq!(
        search_case_insensitive("ALPHA", content),
        search_case_insensitive("ALPHA", content)
    );
}

#[test]
fn non_ascii_lines_are_sliced_whole() {
    let content = "héllo\nwörld\nnaïve ö";
    assert_eq!(vec!["wörld", "naïve ö"], search("ö", content));
    assert_eq!(vec!["ÄPFEL", "äpfel"], search_case_insensitive("Äpfel", "ÄPFEL\näpfel\napfel"));
}

#[test]
fn line_endings() {
    assert_eq!(vec!["a", "b"], lines("a\r\nb\n"));
    assert_eq!(vec!["a", "", "b"], lines("a\n\nb"));
    assert_eq!(vec![""], lines("\n"));
    assert_eq!(vec!["a\r"], lines("a\r"));
    assert!(lines("").is_empty());
}

#[test]
fn matching_lines_follows_ignore_case() {
    let content = "Rust:\nTrust me.\nrusty";
    let exact = Config {
        query: "rust".to_string(),
        file_path: "poem.txt".to_string(),
        ignore_case: false,
        help: false,
    };
    assert_eq!(vec!["Trust me.", "rusty"], matching_lines(&exact, content));
    let folded = Config {
        query: "rust".to_string(),
        file_path: "poem.txt".to_string(),
        ignore_case: true,
        help: false,
    };
    assert_eq!(vec!["Rust:", "Trust me.", "rusty"], matching_lines(&folded, content));
}
