use spallcomp::tokeniser_utils::{get_char_unwrap, read_string, read_until_any_of, read_until_char, read_whitespace};

#[test]
fn test_read_string() {
    assert_eq!(read_string('\'', '\\', "'this in quotes' end"), "'this in quotes'");
    assert_eq!(
        read_string('\'', '\\', r#"'Hello world, don\'t \\' end"#),
        r#"'Hello world, don\'t \\'"#
    );
}

#[test]
fn test_read_whitespace() {
    assert_eq!(read_whitespace("      hello"), "      ");
    assert_eq!(read_whitespace("      \t\n  hello"), "      \t\n  ");
}

#[test]
fn test_read_until_character() {
    assert_eq!(read_until_char("color: red", ':'), ("color".to_string(), true));
    assert_eq!(read_until_char("color red", ':'), ("color red".to_string(), false));
}

#[test]
fn read_string_without_closing_quote_reads_to_end() {
    assert_eq!(read_string('"', '\\', "\"open"), "\"open");
}

#[test]
fn read_until_any_of_reports_the_stop_character() {
    assert_eq!(read_until_any_of("a,b{", &vec!['{', ',']), ("a".to_string(), Some(',')));
    assert_eq!(read_until_any_of("ab", &vec!['{']), ("ab".to_string(), None));
    assert_eq!(read_until_any_of("", &vec!['{']), ("".to_string(), None));
}

#[test]
fn get_char_counts_characters() {
    assert_eq!(get_char_unwrap("héllo", 2), 'l');
}
