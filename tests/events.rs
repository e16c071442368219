use noterm::events::{CursorEvent, Event, KeyCode, KeyEvent, KeyEventKind, KeyModifiers, ModifierKeyCode, ScreenEvent};

#[test]
fn event_kind_queries() {
    let key = Event::Key(KeyEvent::new(KeyCode::Up));
    let screen = Event::Screen(ScreenEvent::FocusGained);
    let cursor = Event::Cursor(CursorEvent::Updated { row: 1, column: 2 });
    assert!(key.is_key_event());
    assert!(!key.is_screen_event());
    assert_eq!(key.as_key_event(), Some(&KeyEvent::new(KeyCode::Up)));
    assert_eq!(key.as_screen_event(), None);
    assert!(screen.is_screen_event());
    assert_eq!(screen.as_screen_event(), Some(&ScreenEvent::FocusGained));
    assert!(!cursor.is_key_event());
    assert!(!cursor.is_screen_event());
}

#[test]
fn key_event_builders() {
    let k = KeyEvent::new(KeyCode::Char('x'));
    assert_eq!(k.modifiers, KeyModifiers::empty());
    assert_eq!(k.kind, KeyEventKind::Pressed);
    let m = k.with_modifiers(KeyModifiers::control()).with_modifiers(KeyModifiers::alt());
    assert_eq!(m.modifiers.bits(), 6);
    assert_eq!(k.with_modifiers_maybe(None), k);
    assert_eq!(k.with_modifiers_maybe(Some(KeyModifiers::shift())).modifiers, KeyModifiers::shift());
    assert_eq!(k.with_kind(KeyEventKind::Released).kind, KeyEventKind::Released);
    assert_eq!(k.with_kind_maybe(None), k);
    assert_eq!(k.with_kind_maybe(Some(KeyEventKind::Repeated)).kind, KeyEventKind::Repeated);
}

#[test]
fn key_event_kind_queries() {
    let pressed = KeyEvent::new(KeyCode::Enter);
    let released = pressed.with_kind(KeyEventKind::Released);
    let repeated = pressed.with_kind(KeyEventKind::Repeated);
    assert!(pressed.is_key_pressed() && !pressed.is_key_released() && !pressed.is_key_repeated());
    assert!(released.is_key_released() && !released.is_key_pressed());
    assert!(repeated.is_key_repeated() && !repeated.is_key_released());
    assert_eq!(pressed.as_key_pressed(), Some(&pressed));
    assert_eq!(pressed.as_key_released(), None);
    assert_eq!(released.as_key_released(), Some(&released));
    assert_eq!(repeated.as_key_repeated(), Some(&repeated));
    assert_eq!(repeated.as_key_pressed(), None);
}

#[test]
fn key_code_queries() {
    assert!(KeyCode::Fn(3).is_function_key());
    assert_eq!(KeyCode::Fn(3).as_function_key(), Some(&KeyCode::Fn(3)));
    assert_eq!(KeyCode::Up.as_function_key(), None);
    let m = KeyCode::Modifier(ModifierKeyCode::LeftShift);
    assert!(m.is_modifier_key());
    assert_eq!(m.as_modifier_key(), Some(&m));
    assert!(!KeyCode::Tab.is_modifier_key());
    assert!(KeyCode::Char('q').is_char_key());
    assert_eq!(KeyCode::Char('q').as_char_key(), Some(&KeyCode::Char('q')));
    assert_eq!(KeyCode::Enter.as_char_key(), None);
}

#[test]
fn screen_event_queries() {
    let r = ScreenEvent::Resized { width: 80, height: 25 };
    assert!(ScreenEvent::FocusGained.is_focus_gained());
    assert!(ScreenEvent::FocusLost.is_focus_lost());
    assert!(!ScreenEvent::FocusLost.is_focus_gained());
    assert!(r.is_resized());
    assert_eq!(r.as_resized(), Some(&r));
    assert_eq!(ScreenEvent::FocusGained.as_resized(), None);
}

#[test]
fn sanitize_turns_shifted_tab_into_back_tab() {
    let k = KeyEvent::new(KeyCode::Tab).with_modifiers(KeyModifiers::shift());
    let once = k.sanitize();
    assert_eq!(once.code, KeyCode::BackTab);
    assert_eq!(once.modifiers, KeyModifiers::shift());
    assert_eq!(once.sanitize(), once);
    let plain_tab = KeyEvent::new(KeyCode::Tab).with_modifiers(KeyModifiers::control());
    assert_eq!(plain_tab.sanitize(), plain_tab);
    let later = KeyEvent::new(KeyCode::Tab).sanitize().with_modifiers(KeyModifiers::shift()).sanitize();
    assert_eq!(later, once);
}

#[test]
fn key_event_from_codes() {
    assert_eq!(KeyEvent::from(KeyCode::Home), KeyEvent::new(KeyCode::Home));
    assert_eq!(
        KeyEvent::from(ModifierKeyCode::RightAlt),
        KeyEvent::new(KeyCode::Modifier(ModifierKeyCode::RightAlt))
    );
}

#[test]
fn modifier_sets() {
    let all = KeyModifiers::shift()
        .union(KeyModifiers::control())
        .union(KeyModifiers::alt())
        .union(KeyModifiers::superkey())
        .union(KeyModifiers::meta());
    assert_eq!(all.bits(), 1 | 2 | 4 | 8 | 32);
    assert!(all.contains(KeyModifiers::meta()));
    assert!(!KeyModifiers::shift().contains(KeyModifiers::alt()));
    assert!(KeyModifiers::empty().is_empty());
    assert_eq!(KeyModifiers::from_bits_retain(16).bits(), 16);
}

#[test]
fn key_event_from_tuples() {
    let k = KeyEvent::from((KeyCode::Char('c'), KeyModifiers::control()));
    assert_eq!(k, KeyEvent::new(KeyCode::Char('c')).with_modifiers(KeyModifiers::control()));
    let k = KeyEvent::from((KeyCode::Up, KeyEventKind::Repeated));
    assert_eq!(k.kind, KeyEventKind::Repeated);
    assert_eq!(k.modifiers, KeyModifiers::empty());
    let k = KeyEvent::from((KeyCode::Down, Some((KeyModifiers::alt(), KeyEventKind::Released))));
    assert_eq!(k.modifiers, KeyModifiers::alt());
    assert_eq!(k.kind, KeyEventKind::Released);
    let none: Option<(KeyModifiers, KeyEventKind)> = None;
    assert_eq!(KeyEvent::from((KeyCode::Down, none)), KeyEvent::new(KeyCode::Down));
}
