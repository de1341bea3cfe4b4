use minigrep::case_insensitive_search;
use minigrep::case_sensitive_search;
use minigrep::search;

#[test]
fn case_sensitive() {
    let query = "duct";
    let contents = "\
Rust:
safe, fast, productive.
Pick three.
Duct tape.";

    assert_eq!(vec!["safe, fast, productive."], case_sensitive_search(query, contents));
}

#[test]
fn case_insensitive() {
    let query = "rUst";
    let contents = "\
Rust:
safe, fast, productive.
Trust me.";

    assert_eq!(vec!["Rust:", "Trust me."], case_insensitive_search(query, contents));
}

#[test]
fn empty_query_keeps_every_line() {
    let contents = "alpha\nbeta\ngamma";
    let expected = vec!["alpha", "beta", "gamma"];
    assert_eq!(expected, case_sensitive_search("", contents));
    assert_eq!(expected, case_insensitive_search("", contents));
}

#[test]
fn no_match_returns_empty() {
    let contents = "alpha\nbeta";
    assert_eq!(Vec::<&str>::new(), case_sensitive_search("zeta", contents));
    assert_eq!(Vec::<&str>::new(), case_insensitive_search("zeta", contents));
}

#[test]
fn search_is_deterministic() {
    let query = "pro";
    let contents = "professional\namateur\nprofound";
    assert_eq!(search(query, contents, true), search(query, contents, true));
    assert_eq!(search(query, contents, false), search(query, contents, false));
}

#[test]
fn dispatch_selects_mode() {
    let contents = "Duct tape.\nproduct";
    assert_eq!(vec!["product"], search("duct", contents, true));
    assert_eq!(vec!["Duct tape.", "product"], search("duct", contents, false));
}

#[test]
fn trailing_newline_adds_no_line() {
    assert_eq!(vec!["a", "b"], case_sensitive_search("", "a\nb\n"));
}

#[test]
fn carriage_return_is_trimmed_before_line_feed() {
    assert_eq!(vec!["one", "two"], case_sensitive_search("", "one\r\ntwo"));
}

#[test]
fn empty_body_has_no_lines() {
    assert_eq!(Vec::<&str>::new(), case_sensitive_search("x", ""));
    assert_eq!(Vec::<&str>::new(), case_insensitive_search("", ""));
}

#[test]
fn fold_is_unicode_aware() {
    let contents = "Äpfel und Birnen";
    assert_eq!(vec!["Äpfel und Birnen"], case_insensitive_search("äPFEL", contents));
}

#[test]
fn fold_applies_to_both_sides() {
    assert_eq!(vec!["rust is nice"], case_insensitive_search("RUST", "rust is nice"));
    assert_eq!(vec!["RUST IS NICE"], case_insensitive_search("rust", "RUST IS NICE"));
}
