use noterm::events::{CursorEvent, Event, KeyCode, KeyEvent, KeyEventKind, KeyModifiers, ScreenEvent};
use noterm::parser::{parse, ParseError};

fn key(code: KeyCode) -> Event {
    Event::Key(KeyEvent::from(code))
}

fn key_with(code: KeyCode, modifiers: KeyModifiers) -> Event {
    Event::Key(KeyEvent::from(code).with_modifiers(modifiers))
}

fn event_of(input: &str) -> Event {
    match parse(input) {
        Ok((_, event)) => event,
        Err(e) => panic!("{:?} gave {:?}", input, e),
    }
}

fn assert_whole(input: &str, expected: Event) {
    assert_eq!(parse(input), Ok(("", expected)), "input {:?}", input);
}

#[test]
fn it_should_parse_single_event_ss3_arrow_keys() {
    assert_whole("\x1bOA", key(KeyCode::Up));
    assert_whole("\x1bOB", key(KeyCode::Down));
    assert_whole("\x1bOC", key(KeyCode::Right));
    assert_whole("\x1bOD", key(KeyCode::Left));
    assert_whole("\x1bOH", key(KeyCode::Home));
    assert_whole("\x1bOF", key(KeyCode::End));
}

#[test]
fn it_should_parse_single_event_ss3_function_keys() {
    assert_whole("\x1bOP", key(KeyCode::Fn(1)));
    assert_whole("\x1bOQ", key(KeyCode::Fn(2)));
    assert_whole("\x1bOR", key(KeyCode::Fn(3)));
    assert_whole("\x1bOS", key(KeyCode::Fn(4)));
}

#[test]
fn it_should_parse_single_event_csi_arrow_keys() {
    assert_whole("\x1b[A", key(KeyCode::Up));
    assert_whole("\x1b[B", key(KeyCode::Down));
    assert_whole("\x1b[C", key(KeyCode::Right));
    assert_whole("\x1b[D", key(KeyCode::Left));
    assert_whole("\x1b[H", key(KeyCode::Home));
    assert_whole("\x1b[F", key(KeyCode::End));
}

#[test]
fn it_should_parse_single_event_csi_function_keys() {
    assert_whole("\x1b[11~", key(KeyCode::Fn(1)));
    assert_whole("\x1b[12~", key(KeyCode::Fn(2)));
    assert_whole("\x1b[13~", key(KeyCode::Fn(3)));
    assert_whole("\x1b[14~", key(KeyCode::Fn(4)));
    assert_whole("\x1b[15~", key(KeyCode::Fn(5)));
    assert_whole("\x1b[17~", key(KeyCode::Fn(6)));
    assert_whole("\x1b[18~", key(KeyCode::Fn(7)));
    assert_whole("\x1b[19~", key(KeyCode::Fn(8)));
    assert_whole("\x1b[20~", key(KeyCode::Fn(9)));
    assert_whole("\x1b[21~", key(KeyCode::Fn(10)));
    assert_whole("\x1b[23~", key(KeyCode::Fn(11)));
    assert_whole("\x1b[24~", key(KeyCode::Fn(12)));
}

#[test]
fn it_should_parse_single_event_csi_function_keys_with_modifiers() {
    assert_eq!(event_of("\x1b[15;2~]"), key_with(KeyCode::Fn(5), KeyModifiers::shift()));
    assert_eq!(event_of("\x1b[15;3~]"), key_with(KeyCode::Fn(5), KeyModifiers::alt()));
    assert_eq!(event_of("\x1b[15;5~]"), key_with(KeyCode::Fn(5), KeyModifiers::control()));
    assert_eq!(event_of("\x1b[15;9~]"), key_with(KeyCode::Fn(5), KeyModifiers::superkey()));
    assert_eq!(parse("\x1b[15;2~]").map(|(rest, _)| rest), Ok("]"));
}

#[test]
fn it_should_parse_single_event_kitty_unambiguous_key() {
    assert_eq!(event_of("\x1b[97u"), key(KeyCode::Char('a')));
    assert_eq!(event_of("\x1b[97;1u"), key_with(KeyCode::Char('a'), KeyModifiers::shift()));
    assert_eq!(event_of("\x1b[97;2u"), key_with(KeyCode::Char('a'), KeyModifiers::alt()));
    assert_eq!(event_of("\x1b[97;4u"), key_with(KeyCode::Char('a'), KeyModifiers::control()));
    assert_eq!(event_of("\x1b[97;8u"), key_with(KeyCode::Char('a'), KeyModifiers::superkey()));
    assert_eq!(event_of("\x1b[97;1;65u"), key_with(KeyCode::Char('a'), KeyModifiers::shift()));
}

#[test]
fn it_should_parse_single_event_kitty_associated_codepoint() {
    assert_whole("\x1b[0;;229u", key(KeyCode::Char('å')));
}

#[test]
fn it_should_parse_utf8_text() {
    assert_whole("0", key(KeyCode::Char('0')));
    assert_whole("a", key(KeyCode::Char('a')));
    assert_whole("A", key_with(KeyCode::Char('a'), KeyModifiers::shift()));
    assert_whole("å", key(KeyCode::Char('å')));
}

#[test]
fn scenario_ss3_up() {
    assert_whole("\x1bOA", key(KeyCode::Up));
}

#[test]
fn scenario_shifted_f5() {
    assert_whole("\x1b[15;2~", key_with(KeyCode::Fn(5), KeyModifiers::shift()));
}

#[test]
fn scenario_kitty_letter() {
    assert_whole("\x1b[97u", key(KeyCode::Char('a')));
}

#[test]
fn scenario_carriage_return_is_enter() {
    assert_whole("\r", key(KeyCode::Enter));
    assert_whole("\n", key(KeyCode::Enter));
}

#[test]
fn every_upper_case_letter_is_lower_case_with_shift() {
    for c in 'A'..='Z' {
        let lower = c.to_ascii_lowercase();
        assert_whole(&c.to_string(), key_with(KeyCode::Char(lower), KeyModifiers::shift()));
    }
}

#[test]
fn backspace_bytes_have_no_control() {
    assert_whole("\x08", key(KeyCode::Backspace));
    assert_whole("\x7f", key(KeyCode::Backspace));
    assert_ne!(event_of("\x08"), key_with(KeyCode::Char('h'), KeyModifiers::control()));
}

#[test]
fn control_characters() {
    assert_whole("\x01", key_with(KeyCode::Char('a'), KeyModifiers::control()));
    assert_whole("\x1a", key_with(KeyCode::Char('z'), KeyModifiers::control()));
    assert_whole("\x1c", key_with(KeyCode::Char('4'), KeyModifiers::control()));
    assert_whole("\x1f", key_with(KeyCode::Char('7'), KeyModifiers::control()));
    assert_whole("\0", key_with(KeyCode::Char(' '), KeyModifiers::control()));
    assert_whole("\t", key(KeyCode::Tab));
}

#[test]
fn csi_back_tab_and_focus() {
    assert_whole("\x1b[Z", key_with(KeyCode::BackTab, KeyModifiers::shift()));
    assert_whole("\x1b[I", Event::Screen(ScreenEvent::FocusGained));
    assert_whole("\x1b[O", Event::Screen(ScreenEvent::FocusLost));
    assert_whole("\x1b[\x1b", key(KeyCode::Escape));
}

#[test]
fn shifted_tab_becomes_back_tab() {
    assert_whole("\x1b[9;1u", key_with(KeyCode::BackTab, KeyModifiers::shift()));
    assert_whole("\x1b\t", key_with(KeyCode::Tab, KeyModifiers::alt()));
}

#[test]
fn special_keys_of_the_numbered_form() {
    assert_whole("\x1b[1~", key(KeyCode::Home));
    assert_whole("\x1b[2~", key(KeyCode::Insert));
    assert_whole("\x1b[3~", key(KeyCode::Delete));
    assert_whole("\x1b[4~", key(KeyCode::End));
    assert_whole("\x1b[5~", key(KeyCode::PageUp));
    assert_whole("\x1b[6~", key(KeyCode::PageDown));
    assert_whole("\x1b[7~", key(KeyCode::Home));
    assert_whole("\x1b[8~", key(KeyCode::End));
    assert_whole("\x1b[3;5~", key_with(KeyCode::Delete, KeyModifiers::control()));
}

#[test]
fn numbered_keys_outside_the_table_are_malformed() {
    assert_eq!(parse("\x1b[9~"), Err(ParseError::Malformed));
    assert_eq!(parse("\x1b[25~"), Err(ParseError::Malformed));
    assert_eq!(parse("\x1b[300~"), Err(ParseError::Malformed));
    assert_eq!(parse("\x1b[3;300~"), Err(ParseError::Malformed));
}

#[test]
fn key_event_kinds() {
    let released = Event::Key(
        KeyEvent::from(KeyCode::Char('a')).with_kind(KeyEventKind::Released),
    );
    assert_whole("\x1b[97;0:2u", released);
    let repeated = Event::Key(
        KeyEvent::from(KeyCode::Fn(5))
            .with_modifiers(KeyModifiers::shift())
            .with_kind(KeyEventKind::Repeated),
    );
    assert_whole("\x1b[15;2:3~", repeated);
}

#[test]
fn modifier_encoded_letters() {
    assert_whole("\x1b[1;5A", key_with(KeyCode::Up, KeyModifiers::control()));
    assert_whole("\x1b[1;3P", key_with(KeyCode::Fn(1), KeyModifiers::alt()));
    assert_whole("\x1b[1;2H", key_with(KeyCode::Home, KeyModifiers::shift()));
}

#[test]
fn cursor_position_report() {
    assert_whole("\x1b[12;40R", Event::Cursor(CursorEvent::Updated { row: 12, column: 40 }));
    assert_whole("\x1b[1;5R", Event::Cursor(CursorEvent::Updated { row: 1, column: 5 }));
    assert_whole("\x1b[1;R", key(KeyCode::Fn(3)));
    assert_eq!(parse("\x1b[1;;R"), Err(ParseError::NeedMoreInput));
}

#[test]
fn letter_shorthand_of_the_extended_form() {
    assert_whole("\x1b[a;3u", key_with(KeyCode::Char('a'), KeyModifiers::alt().union(KeyModifiers::shift())));
    assert_whole("\x1b[Ku", key_with(KeyCode::Char('k'), KeyModifiers::shift()));
}

#[test]
fn meta_mask_bit_is_kept() {
    assert_whole("\x1b[97;32u", key_with(KeyCode::Char('a'), KeyModifiers::meta()));
    assert_whole("\x1b[97;16u", key(KeyCode::Char('a')));
}

#[test]
fn alt_prefix_adds_alt_to_keys_only() {
    assert_whole("\x1bx", key_with(KeyCode::Char('x'), KeyModifiers::alt()));
    assert_whole("\x1b\x1bOA", key_with(KeyCode::Up, KeyModifiers::alt()));
    assert_whole("\x1b\x1b[3;4R", Event::Cursor(CursorEvent::Updated { row: 3, column: 4 }));
    assert_eq!(parse("\x1b\x1b\x1b"), Ok(("\x1b", key_with(KeyCode::Char('\x1b'), KeyModifiers::alt()))));
}

#[test]
fn unfinished_sequences_need_more_input() {
    assert_eq!(parse(""), Err(ParseError::NeedMoreInput));
    assert_eq!(parse("\x1b"), Err(ParseError::NeedMoreInput));
    assert_eq!(parse("\x1bO"), Err(ParseError::NeedMoreInput));
    assert_eq!(parse("\x1b["), Err(ParseError::NeedMoreInput));
    assert_eq!(parse("\x1b[15;2"), Err(ParseError::NeedMoreInput));
    assert_eq!(parse("\x1b[a;2"), Err(ParseError::NeedMoreInput));
}

#[test]
fn unknown_sequence_falls_back_to_alt_bracket() {
    assert_eq!(parse("\x1b[1x"), Ok(("1x", key_with(KeyCode::Char('['), KeyModifiers::alt()))));
    assert_eq!(parse("\x1bOx"), Ok(("x", key_with(KeyCode::Char('o'), KeyModifiers::alt().union(KeyModifiers::shift())))));
}

#[test]
fn invalid_codepoints_are_malformed() {
    assert_eq!(parse("\x1b[55296u"), Err(ParseError::Malformed));
    assert_eq!(parse("\x1b[1114112u"), Err(ParseError::Malformed));
    assert_eq!(parse("\x1b[1;2;3A"), Err(ParseError::NeedMoreInput));
}

#[test]
fn parse_returns_the_rest_of_the_text() {
    assert_eq!(parse("ab"), Ok(("b", key(KeyCode::Char('a')))));
    assert_eq!(parse("\x1bOAB"), Ok(("B", key(KeyCode::Up))));
    assert_eq!(parse("åx"), Ok(("x", key(KeyCode::Char('å')))));
}

#[test]
fn kitty_associated_text_is_dropped() {
    let shifted = key_with(KeyCode::Char('a'), KeyModifiers::shift());
    assert_whole("\x1b[97;1:1;a;bu", shifted);
    assert_whole("\x1b[97;1;au", shifted);
    assert_whole("\x1b[97;1:1;Ru", shifted);
    assert_whole("\x1b[97;1;65:66u", shifted);
    assert_whole("\x1b[97;;hello world!u", key(KeyCode::Char('a')));
    assert_whole("\x1b[a;1;xyzu", shifted);
    assert_eq!(parse("\x1b[97;1;ab"), Err(ParseError::NeedMoreInput));
    assert_eq!(parse("\x1b[97;1;abuZ"), Ok(("Z", shifted)));
}

#[test]
fn kitty_text_codepoint_names_the_key_of_code_point_zero() {
    assert_whole("\x1b[0;;229;xu", key(KeyCode::Char('å')));
    assert_whole("\x1b[0;2;229u", key_with(KeyCode::Char('å'), KeyModifiers::alt()));
}
