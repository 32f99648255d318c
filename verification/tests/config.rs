use minigrep::Config;

fn args(list: &[&str]) -> Vec<String> {
    list.iter().map(|s| s.to_string()).collect()
}

#[test]
fn build_without_query_fails() {
    let result = Config::build(args(&["prog"]), false);
    assert_eq!(result.err(), Some("Missing the query character/word"));
}

#[test]
fn build_without_file_path_fails() {
    let result = Config::build(args(&["prog", "hello"]), false);
    assert_eq!(result.err(), Some("Missing the file path to search for"));
}

#[test]
fn build_takes_query_and_file_path() {
    let config = Config::build(args(&["prog", "hello", "poem.txt"]), true).unwrap();
    assert_eq!(config.query, "hello");
    assert_eq!(config.file_path, "poem.txt");
    assert!(config.ignore_case);
}

#[test]
fn run_search_follows_the_case_toggle() {
    let contents = "Rust:\nTrust me.";
    let exact = Config::build(args(&["prog", "Rust", "poem.txt"]), false).unwrap();
    assert_eq!(vec!["Rust:"], minigrep::run_search(&exact, contents));

    let folded = Config::build(args(&["prog", "Rust", "poem.txt"]), true).unwrap();
    assert_eq!(
        vec!["Rust:", "Trust me."],
        minigrep::run_search(&folded, contents)
    );
}
