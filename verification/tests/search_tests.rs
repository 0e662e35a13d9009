use srep::{search, search_case_insensitive, search_with_config, Config};

#[test]
fn one_result() {
    let query = "duct";
    let contents = "\
Rust:
safe, fast, productive.
Pick three.";

    assert_eq!(vec!["safe, fast, productive."], search(query, contents));
}

#[test]
fn two_results() {
    let query = "duct";
    let contents = "\
Rust:
safe, fast, productive.
safe, fast, productive.
Pick three.";

    assert_eq!(
        search(query, contents).len(),
        2,
        "should be 2 results but were {}",
        search(query, contents).len()
    );
}

#[test]
fn case_sensitive() {
    let query = "duct";
    let contents = "\
Rust:
safe, fast, productive.
Pick three.
Duct tape.";

    assert_eq!(vec!["safe, fast, productive."], search(query, contents));
}

#[test]
fn case_insensitive() {
    let query = "rusT";
    let contents = "\
Rust:
safe, fast, productive.
Pick three.
Trust me.";

    assert_eq!(
        vec!["Rust:", "Trust me."],
        search_case_insensitive(query, contents)
    );
}

#[test]
fn empty_query_returns_every_line() {
    let contents = "Rust:\nsafe, fast, productive.\nPick three.";
    assert_eq!(
        vec!["Rust:", "safe, fast, productive.", "Pick three."],
        search("", contents)
    );
}

#[test]
fn empty_contents_return_nothing() {
    assert_eq!(search("duct", ""), Vec::<&str>::new());
    assert_eq!(search("", ""), Vec::<&str>::new());
    assert_eq!(search_case_insensitive("duct", ""), Vec::<&str>::new());
}

#[test]
fn trailing_newline_adds_no_line() {
    assert_eq!(vec!["one", "two"], search("", "one\ntwo\n"));
    assert_eq!(vec!["one", "", "two"], search("", "one\n\ntwo"));
}

#[test]
fn crlf_line_endings_are_stripped() {
    assert_eq!(vec!["one", "two"], search("", "one\r\ntwo\r\n"));
    // A carriage return not followed by a newline stays on the line.
    assert_eq!(vec!["a\rb"], search("", "a\rb"));
}

#[test]
fn lines_keep_original_text_and_order() {
    let contents = "  padded line \nanother line";
    assert_eq!(vec!["  padded line "], search("padded", contents));
}

#[test]
fn case_insensitive_returns_superset() {
    let query = "rust";
    let contents = "Rust:\nrusty nail\nbust\nno match";
    let sensitive = search(query, contents);
    let insensitive = search_case_insensitive(query, contents);
    assert!(sensitive.len() <= insensitive.len());
    for line in &sensitive {
        assert!(insensitive.contains(line));
    }
    assert_eq!(vec!["rusty nail"], sensitive);
    assert_eq!(vec!["Rust:", "rusty nail"], insensitive);
}

#[test]
fn case_insensitive_folds_both_sides() {
    // An uppercase query must be folded too, so it still matches a
    // lowercase line.
    assert_eq!(vec!["rust"], search_case_insensitive("RUST", "rust\nbust"));
}

#[test]
fn case_insensitive_folds_beyond_ascii() {
    assert_eq!(
        vec!["Ärger"],
        search_case_insensitive("ärger", "Ärger\nAnger")
    );
}

#[test]
fn config_selects_the_variant() {
    let contents = "Rust:\nTrust me.";
    let sensitive = Config {
        query: String::from("rust"),
        file_path: String::from("unused"),
        ignore_case: false,
    };
    assert_eq!(vec!["Trust me."], search_with_config(&sensitive, contents));
    let insensitive = Config {
        query: String::from("rust"),
        file_path: String::from("unused"),
        ignore_case: true,
    };
    assert_eq!(
        vec!["Rust:", "Trust me."],
        search_with_config(&insensitive, contents)
    );
}
