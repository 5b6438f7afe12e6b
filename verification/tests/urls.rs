use bunnylol::encode::fragment_percent_encode;
use bunnylol::text::{contains_str, replace_str, to_lowercase};
use bunnylol::utils::github::construct_github_url;
use bunnylol::utils::google::construct_google_search_query;

#[test]
fn test_construct_github_profile_url_with_gh() {
    let fake_query = "gh";
    assert_eq!(construct_github_url(fake_query), "https://github.com");
}

#[test]
fn test_construct_github_profile_url_with_repo_url() {
    let fake_query = "gh facebook";
    assert_eq!(construct_github_url(fake_query), "https://github.com/facebook");
}

#[test]
fn test_construct_github_search_url_with_repo_url() {
    let fake_query = "gh facebook/docusaurus";
    assert_eq!(
        construct_github_url(fake_query),
        "https://github.com/facebook/docusaurus"
    );
}

#[test]
fn test_construct_google_url() {
    let fake_query = "hello";
    assert_eq!(
        "https://google.com/search?q=hello",
        construct_google_search_query(fake_query)
    );
}

#[test]
fn test_construct_google_url_with_encoding() {
    let fake_query = "hello world";
    assert_eq!(
        "https://google.com/search?q=hello%20world",
        construct_google_search_query(fake_query)
    );
}

#[test]
fn github_url_encodes_spaces() {
    assert_eq!(construct_github_url("gh a b"), "https://github.com/a%20b");
}

#[test]
fn github_url_of_three_bytes_is_bare_slash() {
    assert_eq!(construct_github_url("gh "), "https://github.com/");
}

#[test]
fn encode_fragment_set_and_non_ascii() {
    assert_eq!(fragment_percent_encode("a b\"<>`c"), "a%20b%22%3C%3E%60c");
    assert_eq!(fragment_percent_encode("\t\u{7f}"), "%09%7F");
    assert_eq!(fragment_percent_encode("é"), "%C3%A9");
    assert_eq!(fragment_percent_encode("a/b?c=d&e#f"), "a/b?c=d&e#f");
    assert_eq!(fragment_percent_encode(""), "");
}

#[test]
fn encoded_output_has_no_space() {
    let out = fragment_percent_encode("  x  y ");
    assert!(!out.contains(' '));
    assert_eq!(out, "%20%20x%20%20y%20");
}

#[test]
fn replace_every_placeholder() {
    assert_eq!(replace_str("a{}b{}c", "{}", "X"), "aXbXc");
    assert_eq!(replace_str("{}}", "{}", "Y"), "Y}");
    assert_eq!(replace_str("{{}", "{}", "Z"), "{Z");
    assert_eq!(replace_str("no placeholder", "{}", "Q"), "no placeholder");
}

#[test]
fn contains_and_lowercase() {
    assert!(contains_str("GitHub", "Hub"));
    assert!(!contains_str("GitHub", "hub"));
    assert!(contains_str("abc", ""));
    assert!(!contains_str("", "a"));
    assert_eq!(to_lowercase("GitHub ÉTÉ"), "github été");
}

#[test]
fn encoding_a_concatenation_concatenates_encodings() {
    let whole = fragment_percent_encode("a b<é");
    let parts = format!("{}{}", fragment_percent_encode("a b"), fragment_percent_encode("<é"));
    assert_eq!(whole, parts);
    assert_eq!(whole, "a%20b%3C%C3%A9");
}

#[test]
fn lowercase_of_ascii_and_empty() {
    assert_eq!(to_lowercase(""), "");
    assert_eq!(to_lowercase("AbC-Z09@["), "abc-z09@[");
}
