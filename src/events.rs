//! Input events decoded from a terminal.

use vstd::prelude::*;

pub use crate::parser::parse;

verus! {

/// One decoded terminal input event.
#[derive(Clone, Copy, Debug, PartialEq, Eq, Structural, Hash)]
pub enum Event {
    Cursor(CursorEvent),
    Key(KeyEvent),
    Screen(ScreenEvent),
}

impl Event {
    pub fn is_screen_event(&self) -> (r: bool)
        ensures
            r == (*self is Screen),
    {
        matches!(self, Event::Screen(_))
    }

    pub fn as_screen_event(&self) -> (r: Option<&ScreenEvent>)
        ensures
            r is Some <==> *self is Screen,
            r is Some ==> *self == Event::Screen(*r->0),
    {
        if let Event::Screen(event) = self {
            return Some(event);
        }
        None
    }

    pub fn is_key_event(&self) -> (r: bool)
        ensures
            r == (*self is Key),
    {
        matches!(self, Event::Key(_))
    }

    pub fn as_key_event(&self) -> (r: Option<&KeyEvent>)
        ensures
            r is Some <==> *self is Key,
            r is Some ==> *self == Event::Key(*r->0),
    {
        if let Event::Key(event) = self {
            return Some(event);
        }
        None
    }
}

/// A report of where the terminal's cursor stands, with the values the terminal sent.
#[derive(Clone, Copy, Debug, PartialEq, Eq, Structural, Hash)]
pub enum CursorEvent {
    Updated { row: u16, column: u16 },
}

/// A key press, release or repeat.
#[derive(Clone, Copy, Debug, PartialEq, Eq, Structural, Hash)]
pub struct KeyEvent {
    pub code: KeyCode,
    pub modifiers: KeyModifiers,
    pub kind: KeyEventKind,
}

/// The key event of `code` pressed with no modifier.
pub open spec fn plain_key(code: KeyCode) -> KeyEvent {
    KeyEvent { code, modifiers: KeyModifiers { bits: 0 }, kind: KeyEventKind::Pressed }
}

/// `k` with the modifiers of `m` added.
pub open spec fn add_modifiers(k: KeyEvent, m: KeyModifiers) -> KeyEvent {
    KeyEvent { modifiers: KeyModifiers { bits: k.modifiers.bits | m.bits }, ..k }
}

/// The canonical form of `k`: Tab held with SHIFT is BackTab.
pub open spec fn sanitized(k: KeyEvent) -> KeyEvent {
    if k.code == KeyCode::Tab && k.modifiers.bits & SHIFT_BIT == SHIFT_BIT {
        KeyEvent { code: KeyCode::BackTab, ..k }
    } else {
        k
    }
}

impl KeyEvent {
    pub fn new(code: KeyCode) -> (r: Self)
        ensures
            r == plain_key(code),
    {
        KeyEvent { code, modifiers: KeyModifiers::empty(), kind: KeyEventKind::Pressed }
    }

    pub fn with_modifiers(self, modifiers: KeyModifiers) -> (r: Self)
        ensures
            r == add_modifiers(self, modifiers),
    {
        KeyEvent { modifiers: self.modifiers.union(modifiers), ..self }
    }

    pub fn with_modifiers_maybe(self, modifiers_maybe: Option<KeyModifiers>) -> (r: Self)
        ensures
            r == match modifiers_maybe {
                Some(m) => add_modifiers(self, m),
                None => self,
            },
    {
        match modifiers_maybe {
            Some(modifiers) => self.with_modifiers(modifiers),
            None => self,
        }
    }

    pub fn with_kind(self, kind: KeyEventKind) -> (r: Self)
        ensures
            r == (KeyEvent { kind, ..self }),
    {
        KeyEvent { kind, ..self }
    }

    pub fn with_kind_maybe(self, kind_maybe: Option<KeyEventKind>) -> (r: Self)
        ensures
            r == match kind_maybe {
                Some(kind) => KeyEvent { kind, ..self },
                None => self,
            },
    {
        match kind_maybe {
            Some(kind) => self.with_kind(kind),
            None => self,
        }
    }

    /// Tab held with SHIFT becomes BackTab (SHIFT kept); every other event is left as it is.
    pub fn sanitize(self) -> (r: Self)
        ensures
            r == sanitized(self),
    {
        if matches!(self.code, KeyCode::Tab) && self.modifiers.contains(KeyModifiers::shift()) {
            KeyEvent { code: KeyCode::BackTab, ..self }
        } else {
            self
        }
    }

    pub fn is_key_pressed(&self) -> (r: bool)
        ensures
            r == (self.kind is Pressed),
    {
        matches!(self.kind, KeyEventKind::Pressed)
    }

    pub fn as_key_pressed(&self) -> (r: Option<&KeyEvent>)
        ensures
            r is Some <==> self.kind is Pressed,
            r is Some ==> *r->0 == *self,
    {
        if matches!(self.kind, KeyEventKind::Pressed) {
            return Some(self);
        }
        None
    }

    pub fn is_key_released(&self) -> (r: bool)
        ensures
            r == (self.kind is Released),
    {
        matches!(self.kind, KeyEventKind::Released)
    }

    pub fn as_key_released(&self) -> (r: Option<&KeyEvent>)
        ensures
            r is Some <==> self.kind is Released,
            r is Some ==> *r->0 == *self,
    {
        if matches!(self.kind, KeyEventKind::Released) {
            return Some(self);
        }
        None
    }

    pub fn is_key_repeated(&self) -> (r: bool)
        ensures
            r == (self.kind is Repeated),
    {
        matches!(self.kind, KeyEventKind::Repeated)
    }

    pub fn as_key_repeated(&self) -> (r: Option<&KeyEvent>)
        ensures
            r is Some <==> self.kind is Repeated,
            r is Some ==> *r->0 == *self,
    {
        if matches!(self.kind, KeyEventKind::Repeated) {
            return Some(self);
        }
        None
    }
}

/// Which key an event is about.
#[derive(Clone, Copy, Debug, PartialEq, Eq, Structural, Hash)]
pub enum KeyCode {
    Backspace,
    Enter,
    Left,
    Right,
    Up,
    Down,
    Home,
    End,
    PageUp,
    PageDown,
    Tab,
    BackTab,
    Delete,
    Insert,
    Fn(u8),
    Char(char),
    Escape,
    Modifier(ModifierKeyCode),
}

impl KeyCode {
    pub fn is_function_key(&self) -> (r: bool)
        ensures
            r == (*self is Fn),
    {
        matches!(self, KeyCode::Fn(_))
    }

    pub fn as_function_key(&self) -> (r: Option<&KeyCode>)
        ensures
            r is Some <==> *self is Fn,
            r is Some ==> *r->0 == *self,
    {
        if let KeyCode::Fn(_) = self {
            return Some(self);
        }
        None
    }

    pub fn is_modifier_key(&self) -> (r: bool)
        ensures
            r == (*self is Modifier),
    {
        matches!(self, KeyCode::Modifier(_))
    }

    pub fn as_modifier_key(&self) -> (r: Option<&KeyCode>)
        ensures
            r is Some <==> *self is Modifier,
            r is Some ==> *r->0 == *self,
    {
        if let KeyCode::Modifier(_) = self {
            return Some(self);
        }
        None
    }

    pub fn is_char_key(&self) -> (r: bool)
        ensures
            r == (*self is Char),
    {
        matches!(self, KeyCode::Char(_))
    }

    pub fn as_char_key(&self) -> (r: Option<&KeyCode>)
        ensures
            r is Some <==> *self is Char,
            r is Some ==> *r->0 == *self,
    {
        if let KeyCode::Char(_) = self {
            return Some(self);
        }
        None
    }
}

impl From<KeyCode> for KeyEvent {
    fn from(code: KeyCode) -> (r: Self) {
        KeyEvent::new(code)
    }
}

impl vstd::std_specs::convert::FromSpecImpl<KeyCode> for KeyEvent {
    open spec fn obeys_from_spec() -> bool {
        true
    }

    open spec fn from_spec(code: KeyCode) -> KeyEvent {
        plain_key(code)
    }
}

impl From<ModifierKeyCode> for KeyEvent {
    fn from(code: ModifierKeyCode) -> (r: Self) {
        KeyEvent::new(KeyCode::Modifier(code))
    }
}

impl vstd::std_specs::convert::FromSpecImpl<ModifierKeyCode> for KeyEvent {
    open spec fn obeys_from_spec() -> bool {
        true
    }

    open spec fn from_spec(code: ModifierKeyCode) -> KeyEvent {
        plain_key(KeyCode::Modifier(code))
    }
}

impl From<(KeyCode, KeyModifiers)> for KeyEvent {
    fn from(value: (KeyCode, KeyModifiers)) -> (r: Self) {
        KeyEvent::new(value.0).with_modifiers(value.1)
    }
}

impl vstd::std_specs::convert::FromSpecImpl<(KeyCode, KeyModifiers)> for KeyEvent {
    open spec fn obeys_from_spec() -> bool {
        true
    }

    open spec fn from_spec(value: (KeyCode, KeyModifiers)) -> KeyEvent {
        add_modifiers(plain_key(value.0), value.1)
    }
}

impl From<(KeyCode, KeyEventKind)> for KeyEvent {
    fn from(value: (KeyCode, KeyEventKind)) -> (r: Self) {
        KeyEvent::new(value.0).with_kind(value.1)
    }
}

impl vstd::std_specs::convert::FromSpecImpl<(KeyCode, KeyEventKind)> for KeyEvent {
    open spec fn obeys_from_spec() -> bool {
        true
    }

    open spec fn from_spec(value: (KeyCode, KeyEventKind)) -> KeyEvent {
        KeyEvent { kind: value.1, ..plain_key(value.0) }
    }
}

impl From<(KeyCode, Option<(KeyModifiers, KeyEventKind)>)> for KeyEvent {
    fn from(value: (KeyCode, Option<(KeyModifiers, KeyEventKind)>)) -> (r: Self) {
        match value.1 {
            Some((modifiers, kind)) => KeyEvent::new(value.0).with_modifiers(modifiers).with_kind(kind),
            None => KeyEvent::new(value.0),
        }
    }
}

impl vstd::std_specs::convert::FromSpecImpl<(KeyCode, Option<(KeyModifiers, KeyEventKind)>)> for KeyEvent {
    open spec fn obeys_from_spec() -> bool {
        true
    }

    open spec fn from_spec(value: (KeyCode, Option<(KeyModifiers, KeyEventKind)>)) -> KeyEvent {
        match value.1 {
            Some((m, kind)) => KeyEvent { kind, ..add_modifiers(plain_key(value.0), m) },
            None => plain_key(value.0),
        }
    }
}

/// The standalone modifier keys, reported when a modifier alone goes down.
#[derive(Clone, Copy, Debug, PartialEq, Eq, Structural, Hash)]
pub enum ModifierKeyCode {
    LeftShift,
    LeftControl,
    LeftAlt,
    LeftSuper,
    LeftMeta,
    RightShift,
    RightControl,
    RightAlt,
    RightSuper,
    RightMeta,
}

pub const SHIFT_BIT: u8 = 1;

pub const CONTROL_BIT: u8 = 2;

pub const ALT_BIT: u8 = 4;

pub const SUPER_BIT: u8 = 8;

pub const META_BIT: u8 = 32;

/// A set of held modifiers, one bit each. Bits without a name (16, 64, 128) are kept as
/// they come.
#[derive(Clone, Copy, Debug, PartialEq, Eq, Structural, Hash)]
pub struct KeyModifiers {
    pub bits: u8,
}

impl KeyModifiers {
    pub fn shift() -> (r: Self)
        ensures
            r.bits == SHIFT_BIT,
    {
        KeyModifiers { bits: SHIFT_BIT }
    }

    pub fn control() -> (r: Self)
        ensures
            r.bits == CONTROL_BIT,
    {
        KeyModifiers { bits: CONTROL_BIT }
    }

    pub fn alt() -> (r: Self)
        ensures
            r.bits == ALT_BIT,
    {
        KeyModifiers { bits: ALT_BIT }
    }

    pub fn superkey() -> (r: Self)
        ensures
            r.bits == SUPER_BIT,
    {
        KeyModifiers { bits: SUPER_BIT }
    }

    pub fn meta() -> (r: Self)
        ensures
            r.bits == META_BIT,
    {
        KeyModifiers { bits: META_BIT }
    }

    pub fn empty() -> (r: Self)
        ensures
            r.bits == 0,
    {
        KeyModifiers { bits: 0 }
    }

    pub fn from_bits_retain(bits: u8) -> (r: Self)
        ensures
            r.bits == bits,
    {
        KeyModifiers { bits }
    }

    pub fn bits(&self) -> (r: u8)
        ensures
            r == self.bits,
    {
        self.bits
    }

    pub fn is_empty(&self) -> (r: bool)
        ensures
            r == (self.bits == 0),
    {
        self.bits == 0
    }

    /// Whether every modifier of `other` is held in `self`.
    pub fn contains(&self, other: KeyModifiers) -> (r: bool)
        ensures
            r == (self.bits & other.bits == other.bits),
    {
        self.bits & other.bits == other.bits
    }

    pub fn union(self, other: KeyModifiers) -> (r: Self)
        ensures
            r.bits == self.bits | other.bits,
    {
        KeyModifiers { bits: self.bits | other.bits }
    }
}

/// Whether a key went down, came up, or repeats while held.
#[derive(Clone, Copy, Debug, PartialEq, Eq, Structural, Hash)]
pub enum KeyEventKind {
    Pressed,
    Released,
    Repeated,
}

/// Focus changes and size changes of the terminal window.
#[derive(Clone, Copy, Debug, PartialEq, Eq, Structural, Hash)]
pub enum ScreenEvent {
    FocusGained,
    FocusLost,
    Resized { width: u16, height: u16 },
}

impl ScreenEvent {
    pub fn is_focus_gained(&self) -> (r: bool)
        ensures
            r == (*self is FocusGained),
    {
        matches!(self, ScreenEvent::FocusGained)
    }

    pub fn is_focus_lost(&self) -> (r: bool)
        ensures
            r == (*self is FocusLost),
    {
        matches!(self, ScreenEvent::FocusLost)
    }

    pub fn is_resized(&self) -> (r: bool)
        ensures
            r == (*self is Resized),
    {
        matches!(self, ScreenEvent::Resized { .. })
    }

    pub fn as_resized(&self) -> (r: Option<&ScreenEvent>)
        ensures
            r is Some <==> *self is Resized,
            r is Some ==> *r->0 == *self,
    {
        if let ScreenEvent::Resized { .. } = self {
            return Some(self);
        }
        None
    }
}

} // verus!
