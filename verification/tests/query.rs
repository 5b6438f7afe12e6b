use bunnylol::utils::get_command_from_query_string;

#[test]
fn get_command_from_query_string_no_whitespace() {
    let actual = get_command_from_query_string("tw");
    let expected = "tw";
    assert_eq!(expected, actual.0);
    assert_eq!("", actual.1);
}

#[test]
fn get_command_from_query_string_with_whitespace() {
    let actual = get_command_from_query_string("tw @fbOpenSource");
    let expected = "tw";
    assert_eq!(expected, actual.0);
    assert_eq!("@fbOpenSource", actual.1);
}

#[test]
fn split_at_first_space_only() {
    assert_eq!(get_command_from_query_string("gh facebook react"), ("gh", "facebook react"));
}

#[test]
fn split_leading_space() {
    assert_eq!(get_command_from_query_string(" hello"), ("", "hello"));
}

#[test]
fn split_trailing_space() {
    assert_eq!(get_command_from_query_string("tw "), ("tw", ""));
}

#[test]
fn split_empty_query() {
    assert_eq!(get_command_from_query_string(""), ("", ""));
}

#[test]
fn split_non_ascii() {
    assert_eq!(get_command_from_query_string("wé ça va"), ("wé", "ça va"));
}
