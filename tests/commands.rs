use noterm::ansi::{push_decimal, Command};
use noterm::attributes::{Attribute, AttributeSet};
use noterm::colors::{Background, Color, Foreground, Underline};
use noterm::cursor::{Action as CursorAction, CursorStyle};
use noterm::style::{
    Colors, ResetColor, SetAttribute, SetAttributes, SetBackgroundColor, SetColors, SetForegroundColor,
    AsStyle, AsStyleMut, SetStyle, SetUnderlineColor, Style, StyledContent, Stylized,
};
use noterm::terminal::{Action, Size, Terminal};

fn text_of<C: Command>(command: &C) -> String {
    let mut buffer = String::new();
    command.write(&mut buffer);
    buffer
}

#[test]
fn it_should_write_clear_all_action() {
    let action = Action::ClearScreen;
    let mut buffer = String::default();
    action.write(&mut buffer);
    assert_eq!(buffer.as_str(), "\x1b[2J");
}

#[test]
fn it_should_write_scroll_up_by_action() {
    let action = Action::ScrollUp(32);
    let mut buffer = String::default();
    action.write(&mut buffer);
    assert_eq!(buffer.as_str(), "\x1b[32S");
}

#[test]
fn terminal_actions() {
    assert_eq!(text_of(&Action::ClearCursorDown), "\x1b[J");
    assert_eq!(text_of(&Action::ClearLineToCursor), "\x1b[1K");
    assert_eq!(text_of(&Action::ScrollDown(7)), "\x1b[7T");
    assert_eq!(text_of(&Action::ScrollUp(0)), "");
    assert_eq!(text_of(&Action::SetSize { width: 80, height: 25 }), "\x1b[8;25;80t");
    assert_eq!(text_of(&Action::SetSize { width: 0, height: 25 }), "");
    assert_eq!(text_of(&Action::DisableLineWrapping), "\x1b[?7l");
}

#[test]
fn terminal_handle() {
    let t = Terminal::new(());
    assert_eq!(t.size(), Size { rows: 25, columns: 80 });
    assert_eq!(t.cursor(), (0, 0));
    let t = Terminal::new_with_size((), Size { rows: 50, columns: 132 });
    assert_eq!(t.size(), Size { rows: 50, columns: 132 });
}

#[test]
fn decimal_digits() {
    let mut s = String::new();
    push_decimal(&mut s, 0);
    s.push(' ');
    push_decimal(&mut s, 65535);
    s.push(' ');
    push_decimal(&mut s, 4294967295);
    assert_eq!(s, "0 65535 4294967295");
}

#[test]
fn cursor_actions() {
    assert_eq!(text_of(&CursorAction::Home), "\x1b[H");
    assert_eq!(text_of(&CursorAction::MoveTo { row: 0, column: 9 }), "\x1b[1;10H");
    assert_eq!(text_of(&CursorAction::MoveTo { row: 65535, column: 0 }), "\x1b[65536;1H");
    assert_eq!(text_of(&CursorAction::MoveUp(3)), "\x1b[3A");
    assert_eq!(text_of(&CursorAction::MoveLeft(0)), "");
    assert_eq!(text_of(&CursorAction::MoveToColumn(4)), "\x1b[5G");
    assert_eq!(text_of(&CursorAction::MoveToRow(0)), "\x1b[1d");
    assert_eq!(text_of(&CursorAction::MoveToNextLine(2)), "\x1b[2E");
    assert_eq!(text_of(&CursorAction::GetPosition), "\x1b[6n");
    assert_eq!(text_of(&CursorAction::Hide), "\x1b[?25l");
    assert_eq!(text_of(&CursorAction::SetCursorStyle(CursorStyle::SteadyBar)), "\x1b[6q");
    assert_eq!(text_of(&CursorStyle::Default), "\x1b[q");
}

#[test]
fn color_parameters() {
    let mut s = String::new();
    assert!(!Color::Reset.write(&mut s));
    assert_eq!(s, "");
    assert!(Color::Red.write(&mut s));
    assert_eq!(s, "5;9");
    let mut s = String::new();
    Color::Rgb { r: 1, g: 22, b: 255 }.write(&mut s);
    assert_eq!(s, "2;1;22;255");
    let mut s = String::new();
    Foreground(Color::Ansi(200)).write(&mut s);
    Background(Color::Reset).write(&mut s);
    Underline(Color::Black).write(&mut s);
    assert_eq!(s, "38;5;20049".to_string() + "58;5;0");
}

#[test]
fn color_commands() {
    assert_eq!(text_of(&SetForegroundColor(Color::Blue)), "\x1b[38;5;12m");
    assert_eq!(text_of(&SetBackgroundColor(Color::Reset)), "\x1b[49m");
    assert_eq!(text_of(&SetUnderlineColor(Color::Grey)), "\x1b[58;5;7m");
    let colors = Colors { bg: Some(Color::White), fg: Some(Color::DarkRed), ul: Some(Color::Reset) };
    assert_eq!(text_of(&SetColors(colors)), "\x1b[38;5;1;48;5;15m\x1b[59m");
    assert_eq!(text_of(&SetColors(Colors::new())), "");
    assert!(Colors::new().is_empty());
    assert_eq!(text_of(&ResetColor), "\x1b[0m");
}

#[test]
fn attribute_commands() {
    assert_eq!(text_of(&SetAttribute(Attribute::Striked)), "\x1b[9m");
    let mut set = AttributeSet::new();
    set.insert(Attribute::Underlined);
    set.insert(Attribute::Bold);
    assert_eq!(text_of(&SetAttributes(set)), "\x1b[1m\x1b[4m");
    let style = Style::new(Colors { bg: None, fg: Some(Color::Green), ul: None }, set);
    assert!(!style.is_empty());
    assert_eq!(style.attributes(), set);
    assert_eq!(text_of(&SetStyle(style)), "\x1b[38;5;10m\x1b[1m\x1b[4m");
}

#[test]
fn styled_content() {
    let plain = StyledContent::new(String::from("hi"));
    assert!(plain.style().is_empty());
    assert_eq!(text_of(&plain), "hi");
    let colored = StyledContent::new(String::from("hi")).with(Color::Red).on(Color::Black);
    assert_eq!(colored.style().colors().fg, Some(Color::Red));
    assert_eq!(text_of(&colored), "\x1b[38;5;9;48;5;0mhi\x1b[49m\x1b[39m");
    let bold = StyledContent::new(String::from("x")).attribute(Attribute::Bold).underline(Color::Cyan);
    assert_eq!(text_of(&bold), "\x1b[58;5;14m\x1b[1mx\x1b[0m");
    let mut set = AttributeSet::new();
    set.insert(Attribute::Italic);
    let italic = StyledContent::new(String::from("y")).attributes(set);
    assert_eq!(italic.content(), "y");
    assert_eq!(text_of(&italic), "\x1b[3my\x1b[0m");
}

#[test]
fn stylized_text_of_every_kind() {
    let s = "ok".with(Color::Green);
    assert_eq!(s.style().colors().fg, Some(Color::Green));
    assert_eq!(*s.content(), "ok");
    let owned = String::from("go").on(Color::Blue).attribute(Attribute::Bold);
    assert_eq!(text_of(&owned), "\x1b[48;5;12m\x1b[1mgo\x1b[0m");
    let mut styled = StyledContent::new(String::from("z"));
    styled.style_mut().colors.ul = Some(Color::Red);
    assert_eq!(styled.style().colors().ul, Some(Color::Red));
    assert_eq!(styled.stylize().content, "z");
}
