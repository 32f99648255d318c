use minigrep::search;
use minigrep::search_case_insensitive;

#[test]
fn case_sensitive() {
    let query = "duct";
    let contents = "\
Rust:
safe, fast, productive.
Pick three.
Duct tape.";

    assert_eq!(vec!["safe, fast, productive."], search(query, contents));
}

#[test]
fn case_insensitive() {
    let query = "RuSt";
    let contents = "\
Rust:
safe, fast, productive.
Pick three.
Trust me.";

    assert_eq!(
        vec!["Rust:", "Trust me."],
        search_case_insensitive(query, contents)
    );
}

#[test]
fn exact_search_misses_other_casing() {
    let query = "RuSt";
    let contents = "\
Rust:
safe, fast, productive.
Pick three.
Trust me.";

    assert!(search(query, contents).is_empty());
}

#[test]
fn empty_query_returns_every_line() {
    let contents = "Rust:\nsafe, fast, productive.\nPick three.";
    assert_eq!(
        vec!["Rust:", "safe, fast, productive.", "Pick three."],
        search("", contents)
    );
}

#[test]
fn empty_query_on_empty_document() {
    assert!(search("", "").is_empty());
    assert!(search_case_insensitive("", "").is_empty());
}

#[test]
fn empty_document_returns_nothing() {
    assert!(search("anything", "").is_empty());
    assert!(search_case_insensitive("anything", "").is_empty());
}

#[test]
fn trailing_newline_adds_no_line() {
    assert_eq!(vec!["one", "two"], search("", "one\ntwo\n"));
}

#[test]
fn carriage_return_is_not_line_content() {
    assert_eq!(vec!["tab"], search("tab", "tab\r\ndrum\r\n"));
    assert_eq!(vec!["tab", "drum"], search("", "tab\r\ndrum"));
}

#[test]
fn line_with_two_occurrences_appears_once() {
    assert_eq!(vec!["dada"], search("da", "dada\nnope"));
}

#[test]
fn query_longer_than_any_line() {
    assert!(search("abcdef", "abc\ndef").is_empty());
}

#[test]
fn search_twice_gives_equal_results() {
    let query = "st";
    let contents = "Rust:\nsafe, fast, productive.\nPick three.\nTrust me.";
    let first = search(query, contents);
    let second = search(query, contents);
    assert_eq!(first, second);

    let first_ci = search_case_insensitive(query, contents);
    let second_ci = search_case_insensitive(query, contents);
    assert_eq!(first_ci, second_ci);
}
