use simple_grep::search::{case_insensitive_line_matching, case_sensitive_line_matching};

#[test]
fn test_case_sensitive_line_matching_is_case_sensitive() {
    let query = "the";
    let contents = "The quick brown fox\nJumps over the lazy dog\n";

    let result = case_sensitive_line_matching(query, contents, false).unwrap();

    assert_eq!(result, vec!["Jumps over the lazy dog"]);
}

#[test]
fn test_case_sensitive_line_matching_no_matching_lines() {
    let query = "the";
    let contents = "No\nmatches";

    let result = case_sensitive_line_matching(query, contents, false).unwrap();

    assert_eq!(result, Vec::<&str>::new());
}

#[test]
fn test_case_sensitive_line_matching_multiple_matching_lines() {
    let query = "the";
    let contents = "The quick brown fox\nJumps over the lazy dog\nthe end\n";

    let result = case_sensitive_line_matching(query, contents, false).unwrap();

    assert_eq!(result, vec!["Jumps over the lazy dog", "the end"]);
}

#[test]
fn test_case_sensitive_line_matching_one_word_per_line() {
    let query = "hello";
    let contents = "hello\nthere";

    let result = case_sensitive_line_matching(query, contents, false).unwrap();

    assert_eq!(result, vec!["hello"]);
}

#[test]
fn test_case_sensitive_line_matching_duplicate_lines() {
    let query = "the";
    let contents = "the\nthe\nthe\n";

    let result = case_sensitive_line_matching(query, contents, false).unwrap();

    assert_eq!(result, vec!["the", "the", "the"]);
}

#[test]
fn test_case_sensitive_line_matching_empty_contents() {
    let query = "the";
    let contents = "";

    let result = case_sensitive_line_matching(query, contents, false).unwrap();

    assert_eq!(result, Vec::<&str>::new());
}

#[test]
fn test_case_sensitive_line_matching_empty_query() {
    let query = "";
    let contents = "The quick brown fox\nJumps over the lazy dog\n";

    let result = case_sensitive_line_matching(query, contents, false).unwrap();

    assert_eq!(result, contents.lines().collect::<Vec<&str>>());
}

#[test]
fn test_case_sensitive_line_matching_empty_query_and_contents() {
    let query = "";
    let contents = "";

    let result = case_sensitive_line_matching(query, contents, false).unwrap();

    assert_eq!(result, Vec::<&str>::new());
}

#[test]
fn test_case_sensitive_whole_word_matching_works() {
    let query = "the";
    let contents = "the quick brown fox\nthere there\n";

    let result = case_sensitive_line_matching(query, contents, true).unwrap();

    assert_eq!(result, vec!["the quick brown fox"]);
}

#[test]
fn test_case_insensitive_line_matching_is_case_insensitive() {
    let query = "the";
    let contents = "The quick brown fox\nJumps over the lazy dog\n";

    let result = case_insensitive_line_matching(query, contents, false).unwrap();

    assert_eq!(result, vec!["The quick brown fox", "Jumps over the lazy dog"]);
}

#[test]
fn test_case_insensitive_line_matching_no_matching_lines() {
    let query = "the";
    let contents = "No\nmatches";

    let result = case_insensitive_line_matching(query, contents, false).unwrap();

    assert_eq!(result, Vec::<&str>::new());
}

#[test]
fn test_case_insensitive_line_matching_multiple_matching_lines() {
    let query = "the";
    let contents = "The quick brown fox\nJumps over the lazy dog\nthe end\n";

    let result = case_insensitive_line_matching(query, contents, false).unwrap();

    assert_eq!(result, vec!["The quick brown fox","Jumps over the lazy dog", "the end"]);
}

#[test]
fn test_case_insensitive_line_matching_one_word_per_line() {
    let query = "hello";
    let contents = "hello\nthere";

    let result = case_insensitive_line_matching(query, contents, false).unwrap();

    assert_eq!(result, vec!["hello"]);
}

#[test]
fn test_case_insensitive_line_matching_duplicate_lines() {
    let query = "the";
    let contents = "the\nthe\nThe\n";

    let result = case_insensitive_line_matching(query, contents, false).unwrap();

    assert_eq!(result, vec!["the", "the", "The"]);
}

#[test]
fn test_case_insensitive_line_matching_empty_contents() {
    let query = "the";
    let contents = "";

    let result = case_insensitive_line_matching(query, contents, false).unwrap();

    assert_eq!(result, Vec::<&str>::new());
}

#[test]
fn test_case_insensitive_line_matching_empty_query() {
    let query = "";
    let contents = "The quick brown fox\nJumps over the lazy dog\n";

    let result = case_insensitive_line_matching(query, contents, false).unwrap();

    assert_eq!(result, contents.lines().collect::<Vec<&str>>());
}

#[test]
fn test_case_insensitive_line_matching_empty_query_and_contents() {
    let query = "";
    let contents = "";

    let result = case_insensitive_line_matching(query, contents, false).unwrap();

    assert_eq!(result, Vec::<&str>::new());
}

#[test]
fn test_case_insensitive_whole_word_matching_works() {
    let query = "the";
    let contents = "The quick brown fox\nthere there\n";

    let result = case_insensitive_line_matching(query, contents, true).unwrap();

    assert_eq!(result, vec!["The quick brown fox"]);
}
