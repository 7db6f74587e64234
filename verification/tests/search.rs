use minigrep::{contains_substring, search, search_case_insensitive, split_lines};

#[test]
fn case_sensitive() {
    let query = "duct";
    let contents = "\
Rust:
safe, fast, productive.
Pick three.
Duct tape";

    assert_eq!(vec!["safe, fast, productive."], search(query, contents));
}

#[test]
fn case_insensitive() {
    let query = "rUsT";
    let contents = "\
Rust:
safe, fast, productive.
Pick three.
Trust me.";

    assert_eq!(
        vec!["Rust:", "Trust me."],
        search_case_insensitive(query, contents)
    );
}

#[test]
fn empty_query_returns_all_lines() {
    let contents = "one\ntwo\nthree";
    assert_eq!(vec!["one", "two", "three"], search("", contents));
    assert_eq!(
        vec!["one", "two", "three"],
        search_case_insensitive("", contents)
    );
}

#[test]
fn absent_query_returns_no_lines() {
    let contents = "Rust:\nsafe, fast, productive.\nPick three.";
    assert!(search("monomorphization", contents).is_empty());
    assert!(search_case_insensitive("monomorphization", contents).is_empty());
}

#[test]
fn search_is_case_sensitive() {
    let contents = "Duct tape\nabduct\nDUCT";
    assert_eq!(vec!["abduct"], search("duct", contents));
}

#[test]
fn case_insensitive_lowercases_both_sides() {
    // Would fail if lowercasing handed its argument back unchanged: "RUST"
    // is not an exact substring of any line.
    let contents = "rust is here\nnothing else";
    assert_eq!(vec!["rust is here"], search_case_insensitive("RUST", contents));
}

#[test]
fn empty_contents_has_no_lines() {
    assert!(split_lines("").is_empty());
    assert!(search("a", "").is_empty());
    assert!(search_case_insensitive("a", "").is_empty());
}

#[test]
fn final_terminator_adds_no_line() {
    assert_eq!(vec!["a", "b"], split_lines("a\nb\n"));
    assert_eq!(vec!["a", "b"], split_lines("a\nb"));
}

#[test]
fn lone_newline_is_one_empty_line() {
    assert_eq!(vec![""], split_lines("\n"));
}

#[test]
fn carriage_return_line_feed_is_one_terminator() {
    assert_eq!(vec!["a", "b"], split_lines("a\r\nb\r\n"));
}

#[test]
fn lone_carriage_return_stays_in_its_line() {
    assert_eq!(vec!["a\rb"], split_lines("a\rb"));
    assert_eq!(vec!["a\r"], split_lines("a\r"));
}

#[test]
fn contains_substring_edge_cases() {
    assert!(contains_substring("anything", ""));
    assert!(contains_substring("", ""));
    assert!(!contains_substring("", "a"));
    assert!(!contains_substring("ab", "abc"));
    assert!(contains_substring("abc", "abc"));
    assert!(contains_substring("abc", "bc"));
    assert!(!contains_substring("abc", "ac"));
}

#[test]
fn contains_substring_multibyte_characters() {
    assert!(contains_substring("h\u{e9}llo", "\u{e9}ll"));
    assert!(!contains_substring("h\u{e9}llo", "\u{e8}"));
}
