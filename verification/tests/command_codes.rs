use texter::command::{
    char_to_index, char_to_index_checked, decode_key, decode_text, is_whitespace, ControlCommand,
    KeyCommand, TextCommand,
};

#[test]
fn printable_codes_decode_to_their_glyph_index() {
    assert!(matches!(decode_text(32), TextCommand::Char(0)));
    assert!(matches!(decode_text(b'a'), TextCommand::Char(65)));
    assert!(matches!(decode_text(126), TextCommand::Char(94)));
}

#[test]
fn control_codes_decode_to_their_commands() {
    assert!(matches!(decode_text(127), TextCommand::Backspace));
    assert!(matches!(decode_text(13), TextCommand::Newline));
}

#[test]
fn codes_outside_the_range_are_unknown() {
    assert!(matches!(decode_text(31), TextCommand::Unknown));
    assert!(matches!(decode_text(7), TextCommand::Unknown));
    assert!(matches!(decode_text(200), TextCommand::Unknown));
}

#[test]
fn direction_codes_become_control_commands() {
    for d in 0u8..4 {
        assert!(matches!(
            decode_key(d),
            KeyCommand::CC(ControlCommand::Direction(x)) if x == d
        ));
    }
    assert!(matches!(decode_key(b'q'), KeyCommand::TC(TextCommand::Char(_))));
    assert!(matches!(decode_key(5), KeyCommand::Unknown));
}

#[test]
fn checked_conversion_rejects_both_ends() {
    assert_eq!(char_to_index_checked(31), None);
    assert_eq!(char_to_index_checked(32), Some(0));
    assert_eq!(char_to_index_checked(127), Some(95));
    assert_eq!(char_to_index_checked(128), None);
    assert_eq!(char_to_index(b' '), 0);
    assert_eq!(char_to_index(b'~'), 94);
}

#[test]
fn whitespace_covers_space_and_the_control_whitespace_codes() {
    assert!(is_whitespace(32));
    assert!(is_whitespace(9));
    assert!(is_whitespace(13));
    assert!(!is_whitespace(b'a'));
    assert!(!is_whitespace(127));
}
