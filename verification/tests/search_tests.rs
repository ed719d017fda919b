use minigrep::search;
use minigrep::search_case_insensitive;

#[test]
fn case_sensitive() {
    let query = "duct";
    let contents = "\
Rust:
safe, fast, productive.
Pick three.
Duct tape.";

    assert_eq!(vec!["safe, fast, productive."], search(query, contents))
}

#[test]
fn case_insensitive() {
    let query = "rUsT";
    let contents = "\
Rust:
safe, fast, productive.
Pick three.
Trust me.";

    assert_eq!(
        vec!["Rust:", "Trust me."],
        search_case_insensitive(query, contents)
    )
}

#[test]
fn sensitive_results_contain_query_in_order() {
    let contents = "first stop\nnothing here\nlast stop\nstop";
    let results = search("stop", contents);
    assert_eq!(vec!["first stop", "last stop", "stop"], results);
    for line in &results {
        assert!(line.contains("stop"));
    }
}

#[test]
fn duplicate_lines_are_kept_per_occurrence() {
    let contents = "echo\nother\necho";
    assert_eq!(vec!["echo", "echo"], search("echo", contents));
}

#[test]
fn insensitive_superset_of_sensitive() {
    let query = "Rust";
    let contents = "Rust:\ntrust me\nRust again\nno match";
    let sensitive = search(query, contents);
    let insensitive = search_case_insensitive(query, contents);
    assert_eq!(vec!["Rust:", "Rust again"], sensitive);
    assert_eq!(vec!["Rust:", "trust me", "Rust again"], insensitive);
    for line in &sensitive {
        assert!(insensitive.contains(line));
    }
}

#[test]
fn repeated_runs_agree() {
    let query = "prod";
    let contents = "safe\nproductive\nfast";
    assert_eq!(search(query, contents), search(query, contents));
    assert_eq!(
        search_case_insensitive(query, contents),
        search_case_insensitive(query, contents)
    );
}

#[test]
fn empty_query_matches_every_line() {
    let contents = "one\ntwo\nthree";
    assert_eq!(vec!["one", "two", "three"], search("", contents));
    assert_eq!(
        vec!["one", "two", "three"],
        search_case_insensitive("", contents)
    );
}

#[test]
fn empty_contents_match_nothing() {
    assert_eq!(Vec::<&str>::new(), search("query", ""));
    assert_eq!(Vec::<&str>::new(), search_case_insensitive("query", ""));
    assert_eq!(Vec::<&str>::new(), search("", ""));
}

#[test]
fn uppercase_query_finds_lowercase_line() {
    let contents = "rust here\nnothing";
    assert_eq!(vec!["rust here"], search_case_insensitive("RUST", contents));
}

#[test]
fn lowercase_query_finds_uppercase_line() {
    let contents = "RUST HERE\nnothing";
    assert_eq!(vec!["RUST HERE"], search_case_insensitive("rust", contents));
}

#[test]
fn folding_is_not_limited_to_ascii() {
    let contents = "GRÜSSE\nplain";
    assert_eq!(vec!["GRÜSSE"], search_case_insensitive("grüsse", contents));
}

#[test]
fn folding_may_expand_a_character() {
    // The lowercase mapping of the dotted capital I is an i followed by a
    // combining dot above, two characters for one.
    let contents = "İstanbul\nelsewhere";
    assert_eq!(
        vec!["İstanbul"],
        search_case_insensitive("i\u{307}", contents)
    );
}

#[test]
fn sensitive_search_respects_case() {
    let contents = "Duct tape.\nduct tape.";
    assert_eq!(vec!["duct tape."], search("duct", contents));
}
