use slackbot::text::{chars_of, join_strings, split_spaces};

fn strings(parts: &[&str]) -> Vec<String> {
    parts.iter().map(|p| p.to_string()).collect()
}

#[test]
fn split_spaces_plain() {
    assert_eq!(split_spaces("greet Alice"), strings(&["greet", "Alice"]));
    assert_eq!(split_spaces("one"), strings(&["one"]));
}

#[test]
fn split_spaces_of_empty_text_is_one_empty_token() {
    assert_eq!(split_spaces(""), strings(&[""]));
}

#[test]
fn split_spaces_keeps_empty_tokens() {
    assert_eq!(split_spaces("a  b"), strings(&["a", "", "b"]));
    assert_eq!(split_spaces(" a"), strings(&["", "a"]));
    assert_eq!(split_spaces("a "), strings(&["a", ""]));
    assert_eq!(split_spaces("   "), strings(&["", "", "", ""]));
}

#[test]
fn split_spaces_splits_on_the_space_only() {
    assert_eq!(split_spaces("a\tb\nc,d"), strings(&["a\tb\nc,d"]));
    assert_eq!(split_spaces("h\u{e9}llo w\u{f6}rld"), strings(&["h\u{e9}llo", "w\u{f6}rld"]));
}

#[test]
fn split_spaces_agrees_with_std_split() {
    for text in ["", " ", "a", "a b c", "  x  ", "tab\there", "\u{1F600} \u{1F601}"] {
        let expected: Vec<String> = text.split(' ').map(|t| t.to_string()).collect();
        assert_eq!(split_spaces(text), expected);
    }
}

#[test]
fn join_strings_puts_separator_between_parts() {
    assert_eq!(join_strings(&strings(&["a", "b", "c"]), "\n"), "a\nb\nc");
    assert_eq!(join_strings(&strings(&["only"]), "\n"), "only");
    assert_eq!(join_strings(&strings(&[]), "\n"), "");
    assert_eq!(join_strings(&strings(&["", ""]), ", "), ", ");
}

#[test]
fn join_undoes_split() {
    for text in ["", " ", "a b", "  lead", "trail  ", "a  b   c"] {
        assert_eq!(join_strings(&split_spaces(text), " "), text);
    }
}

#[test]
fn chars_of_lists_characters() {
    assert_eq!(chars_of("a\u{e9}\u{1F600}"), vec!['a', '\u{e9}', '\u{1F600}']);
    assert_eq!(chars_of(""), Vec::<char>::new());
}
