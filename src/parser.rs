//! The escape-sequence grammar: from text to one event and the number of characters it spans.

use vstd::prelude::*;
use vstd::string::StrSliceExecFns;
use vstd::utf8::is_scalar;

use crate::ansi::{decimal, digit_char};
use crate::events::{
    add_modifiers, plain_key, sanitized, CursorEvent, Event, KeyCode, KeyEvent, KeyEventKind,
    KeyModifiers, ScreenEvent, ALT_BIT, SHIFT_BIT,
};

verus! {

/// Why the grammar could not produce an event.
#[derive(Clone, Copy, Debug, PartialEq, Eq, Structural)]
pub enum ParseError {
    /// The text is the beginning of a longer sequence: wait for more and try again.
    NeedMoreInput,
    /// The text is not a sequence of this form: try the next form.
    NoMatch,
    /// The text opens a known sequence whose body breaks its rules: drop the buffered input.
    Malformed,
}

/// An event and the position just past the characters it spans, or why there is none.
pub type Decoded = Result<(Event, int), ParseError>;

pub const ESC: char = '\x1b';

pub const MAX_MODIFIER: u32 = 255;

pub const MAX_COORDINATE: u32 = 65535;

pub const MAX_CODEPOINT: u32 = 0x10ffff;

pub open spec fn is_digit(c: char) -> bool {
    '0' <= c && c <= '9'
}

/// The characters that may stand between `ESC [` and the character that ends the sequence.
pub open spec fn is_param(c: char) -> bool {
    is_digit(c) || c == ';' || c == ':'
}

pub open spec fn is_upper(c: char) -> bool {
    'A' <= c && c <= 'Z'
}

pub open spec fn is_letter(c: char) -> bool {
    is_upper(c) || ('a' <= c && c <= 'z')
}

pub open spec fn lower(c: char) -> char {
    ((c as u8) + 32u8) as char
}

/// The decimal value of the digits `s[a..b]`.
pub open spec fn number(s: Seq<char>, a: int, b: int) -> nat
    decreases b - a,
{
    if b <= a {
        0
    } else {
        number(s, a, b - 1) * 10 + ((s[b - 1] as u32) - ('0' as u32)) as nat
    }
}

/// Whether `s[a..b]` is a non-empty run of digits.
pub open spec fn is_number(s: Seq<char>, a: int, b: int) -> bool {
    a < b && forall|p: int| a <= p < b ==> is_digit(#[trigger] s[p])
}

/// The first position in `[j, k)` that holds `c`, or `k`.
pub open spec fn next_sep(s: Seq<char>, j: int, k: int, c: char) -> int
    decreases k - j,
{
    if j >= k {
        k
    } else if s[j] == c {
        j
    } else {
        next_sep(s, j + 1, k, c)
    }
}

/// The first position from `i` on that holds `u`, or the end of `s`.
pub open spec fn find_u(s: Seq<char>, i: int) -> int
    decreases s.len() - i,
{
    if i >= s.len() || s[i] == 'u' {
        i
    } else {
        find_u(s, i + 1)
    }
}

/// The first position in `[a, b)` that holds no digit, or `b`.
pub open spec fn digits_end(s: Seq<char>, a: int, b: int) -> int
    decreases b - a,
{
    if a >= b || !is_digit(s[a]) {
        a
    } else {
        digits_end(s, a + 1, b)
    }
}

/// The first position from `j` on that is past the end of `s` or holds no parameter character.
pub open spec fn param_end(s: Seq<char>, j: int) -> int
    decreases s.len() - j,
{
    if j >= s.len() || !is_param(s[j]) {
        j
    } else {
        param_end(s, j + 1)
    }
}

/// The modifiers named by a wire mask: 1 SHIFT, 2 ALT, 4 CONTROL, 8 SUPER, 32 META.
pub open spec fn modifiers_from_mask(mask: u8) -> KeyModifiers {
    KeyModifiers { bits: (mask & 1) | ((mask & 2) << 1u8) | ((mask & 4) >> 1u8) | (mask & 8) | (mask & 32) }
}

pub open spec fn kind_from_value(v: nat) -> KeyEventKind {
    if v == 2 {
        KeyEventKind::Released
    } else if v == 3 {
        KeyEventKind::Repeated
    } else {
        KeyEventKind::Pressed
    }
}

/// The keys named by one letter after `ESC O`, or after the modifiers of `ESC [`.
pub open spec fn letter_key(c: char) -> Option<KeyCode> {
    if c == 'A' {
        Some(KeyCode::Up)
    } else if c == 'B' {
        Some(KeyCode::Down)
    } else if c == 'C' {
        Some(KeyCode::Right)
    } else if c == 'D' {
        Some(KeyCode::Left)
    } else if c == 'H' {
        Some(KeyCode::Home)
    } else if c == 'F' {
        Some(KeyCode::End)
    } else if c == 'P' {
        Some(KeyCode::Fn(1))
    } else if c == 'Q' {
        Some(KeyCode::Fn(2))
    } else if c == 'R' {
        Some(KeyCode::Fn(3))
    } else if c == 'S' {
        Some(KeyCode::Fn(4))
    } else {
        None
    }
}

/// The keys of the numbered `ESC [ n ~` form.
pub open spec fn special_key(v: nat) -> Option<KeyCode> {
    if v == 1 || v == 7 {
        Some(KeyCode::Home)
    } else if v == 2 {
        Some(KeyCode::Insert)
    } else if v == 3 {
        Some(KeyCode::Delete)
    } else if v == 4 || v == 8 {
        Some(KeyCode::End)
    } else if v == 5 {
        Some(KeyCode::PageUp)
    } else if v == 6 {
        Some(KeyCode::PageDown)
    } else if 11 <= v <= 15 {
        Some(KeyCode::Fn((v - 10) as u8))
    } else if 17 <= v <= 21 {
        Some(KeyCode::Fn((v - 11) as u8))
    } else if 23 <= v <= 24 {
        Some(KeyCode::Fn((v - 12) as u8))
    } else {
        None
    }
}

/// A character typed as text: an upper-case ASCII letter is its lower case with SHIFT.
pub open spec fn text_key(c: char) -> KeyEvent {
    if is_upper(c) {
        KeyEvent { modifiers: KeyModifiers { bits: SHIFT_BIT }, ..plain_key(KeyCode::Char(lower(c))) }
    } else {
        plain_key(KeyCode::Char(c))
    }
}

/// The key of a code point of the extended keyboard protocol.
pub open spec fn codepoint_key(c: char) -> KeyEvent {
    if c == ESC {
        plain_key(KeyCode::Escape)
    } else if c == '\r' || c == '\n' {
        plain_key(KeyCode::Enter)
    } else if c == '\t' {
        plain_key(KeyCode::Tab)
    } else if c == '\x7f' {
        plain_key(KeyCode::Backspace)
    } else {
        text_key(c)
    }
}

/// The key of a control character, if `c` is one.
pub open spec fn control_key(c: char) -> Option<KeyEvent> {
    let ctrl = KeyModifiers { bits: crate::events::CONTROL_BIT };
    if c == '\r' || c == '\n' {
        Some(plain_key(KeyCode::Enter))
    } else if c == '\t' {
        Some(plain_key(KeyCode::Tab))
    } else if c == '\x7f' || c == '\x08' {
        Some(plain_key(KeyCode::Backspace))
    } else if '\x01' <= c <= '\x1a' {
        Some(KeyEvent { modifiers: ctrl, ..plain_key(KeyCode::Char(((c as u8) + 96u8) as char)) })
    } else if '\x1c' <= c <= '\x1f' {
        Some(KeyEvent { modifiers: ctrl, ..plain_key(KeyCode::Char(((c as u8) + 24u8) as char)) })
    } else if c == '\0' {
        Some(KeyEvent { modifiers: ctrl, ..plain_key(KeyCode::Char(' ')) })
    } else {
        None
    }
}

/// A single character: a control character, else text.
pub open spec fn single_char(c: char) -> KeyEvent {
    match control_key(c) {
        Some(k) => k,
        None => text_key(c),
    }
}

/// The modifiers and kind of `s[a..b]`, written `mask[:kind]`, each at most 255.
pub open spec fn modifier_section(s: Seq<char>, a: int, b: int) -> Option<(nat, Option<nat>)> {
    let c = next_sep(s, a, b, ':');
    if !is_number(s, a, c) || number(s, a, c) > MAX_MODIFIER {
        None
    } else if c == b {
        Some((number(s, a, c), None))
    } else if is_number(s, c + 1, b) && number(s, c + 1, b) <= MAX_MODIFIER {
        Some((number(s, a, c), Some(number(s, c + 1, b))))
    } else {
        None
    }
}

/// `k` with the mask and kind of a modifier section applied, then made canonical.
pub open spec fn apply_section(k: KeyEvent, mask: nat, kind: Option<nat>) -> KeyEvent {
    let m = add_modifiers(k, modifiers_from_mask(mask as u8));
    sanitized(
        match kind {
            Some(v) => KeyEvent { kind: kind_from_value(v), ..m },
            None => m,
        },
    )
}

/// A section of the legacy forms, whose wire value is the mask plus one; an empty one is
/// no modifier.
pub open spec fn legacy_modifiers(k: KeyEvent, s: Seq<char>, a: int, b: int) -> Option<KeyEvent> {
    if a == b {
        Some(sanitized(k))
    } else {
        match modifier_section(s, a, b) {
            Some((m, kind)) => Some(apply_section(k, if m == 0 { 0 } else { (m - 1) as nat }, kind)),
            None => None,
        }
    }
}

/// `ESC [ code [; mask[:kind]] ~`, with the parameters in `s[j..k]`.
pub open spec fn tilde_form(s: Seq<char>, j: int, k: int) -> Option<KeyEvent> {
    let f = next_sep(s, j, k, ';');
    if !is_number(s, j, f) || number(s, j, f) > MAX_MODIFIER {
        None
    } else {
        match special_key(number(s, j, f)) {
            None => None,
            Some(code) => if f == k {
                Some(plain_key(code))
            } else if f + 1 == k || next_sep(s, f + 1, k, ';') != k {
                None
            } else {
                legacy_modifiers(plain_key(code), s, f + 1, k)
            },
        }
    }
}

/// The tail `[; mask[:kind]] [; text]` of the `u` form, from `f` (a `;` or `k`), applied to
/// the key `key`; when `key` stands for code point 0 the first code point of the text names
/// the key.
pub open spec fn u_tail(key: KeyEvent, zero: bool, s: Seq<char>, f: int, k: int) -> Option<KeyEvent> {
    if f == k {
        Some(sanitized(key))
    } else {
        let g = next_sep(s, f + 1, k, ';');
        let d = digits_end(s, g + 1, k);
        let base = if g < k && zero && g + 1 < d {
            if number(s, g + 1, d) <= MAX_CODEPOINT && is_scalar(number(s, g + 1, d) as u32) {
                Some(codepoint_key(number(s, g + 1, d) as u32 as char))
            } else {
                None
            }
        } else {
            Some(key)
        };
        match base {
            None => None,
            Some(b) => if f + 1 == g {
                Some(sanitized(b))
            } else {
                match modifier_section(s, f + 1, g) {
                    Some((m, kind)) => Some(apply_section(b, m, kind)),
                    None => None,
                }
            },
        }
    }
}

/// `ESC [ codepoint[:alternates] [; mask[:kind]] [; text] u`, from the body's start `j` to
/// the closing `u` at `k`.
pub open spec fn u_form(s: Seq<char>, j: int, k: int) -> Option<KeyEvent> {
    let f = next_sep(s, j, k, ';');
    let c = next_sep(s, j, f, ':');
    if !is_number(s, j, c) || number(s, j, c) > MAX_CODEPOINT || !is_scalar(
        number(s, j, c) as u32,
    ) {
        None
    } else {
        u_tail(codepoint_key(number(s, j, c) as u32 as char), number(s, j, c) == 0, s, f, k)
    }
}

/// `ESC [ row ; column R`, parameters in `s[j..k]`.
pub open spec fn cursor_form(s: Seq<char>, j: int, k: int) -> Option<CursorEvent> {
    let f = next_sep(s, j, k, ';');
    if is_number(s, j, f) && number(s, j, f) <= MAX_COORDINATE && is_number(s, f + 1, k)
        && number(s, f + 1, k) <= MAX_COORDINATE {
        Some(CursorEvent::Updated { row: number(s, j, f) as u16, column: number(s, f + 1, k) as u16 })
    } else {
        None
    }
}

/// `ESC [ prefix ; mask[:kind] letter`, parameters in `s[j..k]`.
pub open spec fn modified_letter_form(s: Seq<char>, j: int, k: int, code: KeyCode) -> Option<KeyEvent> {
    let f = next_sep(s, j, k, ';');
    if f == k || next_sep(s, f + 1, k, ';') != k {
        None
    } else {
        legacy_modifiers(plain_key(code), s, f + 1, k)
    }
}

/// What a CSI sequence with parameters `s[j..k]` and final character `s[k]` stands for.
pub open spec fn csi_params(s: Seq<char>, j: int, k: int) -> Result<Event, ParseError> {
    let last = s[k];
    if last == '~' {
        match tilde_form(s, j, k) {
            Some(e) => Ok(Event::Key(e)),
            None => Err(ParseError::Malformed),
        }
    } else if last == 'u' {
        match u_form(s, j, k) {
            Some(e) => Ok(Event::Key(e)),
            None => Err(ParseError::Malformed),
        }
    } else if last == 'R' && cursor_form(s, j, k) is Some {
        Ok(Event::Cursor(cursor_form(s, j, k)->0))
    } else if letter_key(last) is Some {
        match modified_letter_form(s, j, k, letter_key(last)->0) {
            Some(e) => Ok(Event::Key(e)),
            None => Err(ParseError::Malformed),
        }
    } else {
        Err(ParseError::NoMatch)
    }
}

/// `ESC O letter`.
pub open spec fn ss3(s: Seq<char>, i: int) -> Decoded {
    if i >= s.len() {
        Err(ParseError::NeedMoreInput)
    } else if s[i] != ESC {
        Err(ParseError::NoMatch)
    } else if i + 1 >= s.len() {
        Err(ParseError::NeedMoreInput)
    } else if s[i + 1] != 'O' {
        Err(ParseError::NoMatch)
    } else if i + 2 >= s.len() {
        Err(ParseError::NeedMoreInput)
    } else {
        match letter_key(s[i + 2]) {
            Some(code) => Ok((Event::Key(plain_key(code)), i + 3)),
            None => Err(ParseError::NoMatch),
        }
    }
}

/// The CSI body that starts at `j`, just past `ESC [`. Parameters run over digits, `;` and
/// `:`; a second `;` among them opens the text of the `u` form, which runs to the first `u`,
/// whatever it holds.
pub open spec fn csi_body(s: Seq<char>, j: int) -> Decoded {
    let c = s[j];
    if c == ESC {
        Ok((Event::Key(plain_key(KeyCode::Escape)), j + 1))
    } else if c == 'Z' {
        Ok((Event::Key(sanitized(add_modifiers(plain_key(KeyCode::BackTab), KeyModifiers { bits: SHIFT_BIT }))), j + 1))
    } else if c == 'I' {
        Ok((Event::Screen(ScreenEvent::FocusGained), j + 1))
    } else if c == 'O' {
        Ok((Event::Screen(ScreenEvent::FocusLost), j + 1))
    } else if (c == 'A' || c == 'B' || c == 'C' || c == 'D' || c == 'H' || c == 'F') {
        Ok((Event::Key(plain_key(letter_key(c)->0)), j + 1))
    } else if is_param(c) {
        let k = param_end(s, j);
        let f = next_sep(s, j, k, ';');
        let g = next_sep(s, f + 1, k, ';');
        if g < k {
            let e = find_u(s, g + 1);
            if e >= s.len() {
                Err(ParseError::NeedMoreInput)
            } else {
                match u_form(s, j, e) {
                    Some(e2) => Ok((Event::Key(e2), e + 1)),
                    None => Err(ParseError::Malformed),
                }
            }
        } else if k >= s.len() {
            Err(ParseError::NeedMoreInput)
        } else {
            match csi_params(s, j, k) {
                Ok(e) => Ok((e, k + 1)),
                Err(x) => Err(x),
            }
        }
    } else if is_letter(c) {
        let k = param_end(s, j + 1);
        let f = next_sep(s, j + 1, k, ';');
        let g = next_sep(s, f + 1, k, ';');
        if g < k {
            let e = find_u(s, g + 1);
            if e >= s.len() {
                Err(ParseError::NeedMoreInput)
            } else {
                match u_tail(codepoint_key(c), false, s, f, e) {
                    Some(e2) => Ok((Event::Key(e2), e + 1)),
                    None => Err(ParseError::Malformed),
                }
            }
        } else if k >= s.len() {
            Err(ParseError::NeedMoreInput)
        } else if s[k] != 'u' {
            Err(ParseError::NoMatch)
        } else {
            match u_tail(codepoint_key(c), false, s, f, k) {
                Some(e) => Ok((Event::Key(e), k + 1)),
                None => Err(ParseError::Malformed),
            }
        }
    } else {
        Err(ParseError::NoMatch)
    }
}

/// `ESC [ ...`.
pub open spec fn csi(s: Seq<char>, i: int) -> Decoded {
    if i >= s.len() {
        Err(ParseError::NeedMoreInput)
    } else if s[i] != ESC {
        Err(ParseError::NoMatch)
    } else if i + 1 >= s.len() {
        Err(ParseError::NeedMoreInput)
    } else if s[i + 1] != '[' {
        Err(ParseError::NoMatch)
    } else if i + 2 >= s.len() {
        Err(ParseError::NeedMoreInput)
    } else {
        csi_body(s, i + 2)
    }
}

/// What the text from position `i` on opens with. The forms are tried in order: `ESC O`,
/// `ESC [`, then (unless `nested`) `ESC` before a whole event, which adds ALT to a key,
/// then a single control character or text character.
pub open spec fn decode(s: Seq<char>, i: int, nested: bool) -> Decoded
    decreases (if nested { 0int } else { 1int }),
{
    if i < 0 || i >= s.len() {
        Err(ParseError::NeedMoreInput)
    } else if ss3(s, i) != Err::<(Event, int), ParseError>(ParseError::NoMatch) {
        ss3(s, i)
    } else if csi(s, i) != Err::<(Event, int), ParseError>(ParseError::NoMatch) {
        csi(s, i)
    } else if !nested && s[i] == ESC {
        match decode(s, i + 1, true) {
            Ok((Event::Key(k), e)) => Ok(
                (Event::Key(sanitized(add_modifiers(k, KeyModifiers { bits: ALT_BIT }))), e),
            ),
            r => r,
        }
    } else {
        Ok((Event::Key(single_char(s[i])), i + 1))
    }
}

/// The event that the text `s` opens with, and how many characters it spans.
pub open spec fn grammar(s: Seq<char>) -> Decoded {
    decode(s, 0, false)
}

proof fn lemma_number_monotone(s: Seq<char>, a: int, p: int, q: int)
    requires
        a <= p <= q,
    ensures
        number(s, a, p) <= number(s, a, q),
    decreases q - p,
{
    if p < q {
        lemma_number_monotone(s, a, p, q - 1);
    }
}

/// Relies on char::from_u32: `Some` exactly for the Unicode scalar values, holding that value.
#[verifier::external_body]
fn char_from_scalar(v: u32) -> (r: Option<char>)
    ensures
        r is Some <==> is_scalar(v),
        r is Some ==> r->0 as u32 == v,
{
    char::from_u32(v)
}

fn is_digit_char(c: char) -> (r: bool)
    ensures
        r == is_digit(c),
{
    '0' <= c && c <= '9'
}

fn is_param_char(c: char) -> (r: bool)
    ensures
        r == is_param(c),
{
    is_digit_char(c) || c == ';' || c == ':'
}

/// The first position from `j` on that holds no parameter character.
fn scan_params(t: &Vec<char>, j: usize) -> (r: usize)
    requires
        j <= t@.len(),
    ensures
        r == param_end(t@, j as int),
        j <= r <= t@.len(),
{
    let mut p = j;
    while p < t.len() && is_param_char(t[p])
        invariant
            j <= p <= t@.len(),
            param_end(t@, j as int) == param_end(t@, p as int),
        decreases t@.len() - p,
    {
        p = p + 1;
    }
    p
}

/// The first position in `[j, k)` that holds `c`, or `k`.
fn find_sep(t: &Vec<char>, j: usize, k: usize, c: char) -> (r: usize)
    requires
        j <= k <= t@.len(),
    ensures
        r == next_sep(t@, j as int, k as int, c),
        j <= r <= k,
{
    let mut p = j;
    while p < k && t[p] != c
        invariant
            j <= p <= k <= t@.len(),
            next_sep(t@, j as int, k as int, c) == next_sep(t@, p as int, k as int, c),
        decreases k - p,
    {
        p = p + 1;
    }
    p
}

/// The value of the digits `t[a..b]` when they are a non-empty run of digits worth at most `cap`.
fn read_number(t: &Vec<char>, a: usize, b: usize, cap: u32) -> (r: Option<u32>)
    requires
        a <= b <= t@.len(),
        cap <= MAX_CODEPOINT,
    ensures
        r is Some <==> is_number(t@, a as int, b as int) && number(t@, a as int, b as int) <= cap,
        r is Some ==> r->0 == number(t@, a as int, b as int),
{
    if a == b {
        return None;
    }
    let mut v: u32 = 0;
    let mut p = a;
    while p < b
        invariant
            a <= p <= b <= t@.len(),
            cap <= MAX_CODEPOINT,
            v == number(t@, a as int, p as int),
            v <= cap,
            forall|q: int| a <= q < p ==> is_digit(#[trigger] t@[q]),
        decreases b - p,
    {
        let c = t[p];
        if !is_digit_char(c) {
            return None;
        }
        let next = v * 10 + (c as u32 - '0' as u32);
        proof {
            lemma_number_monotone(t@, a as int, (p + 1) as int, b as int);
        }
        if next > cap {
            return None;
        }
        v = next;
        p = p + 1;
    }
    Some(v)
}

pub fn interpret_key_modifiers_from_mask(mask: u8) -> (r: KeyModifiers)
    ensures
        r == modifiers_from_mask(mask),
{
    KeyModifiers::from_bits_retain(
        (mask & 1) | ((mask & 2) << 1u8) | ((mask & 4) >> 1u8) | (mask & 8) | (mask & 32),
    )
}

fn interpret_key_event_kind_from_value(value: u32) -> (r: KeyEventKind)
    ensures
        r == kind_from_value(value as nat),
{
    match value {
        2 => KeyEventKind::Released,
        3 => KeyEventKind::Repeated,
        _ => KeyEventKind::Pressed,
    }
}

fn interpret_modifier_key_code_value(value: char) -> (r: Option<KeyCode>)
    ensures
        r == letter_key(value),
{
    match value {
        'A' => Some(KeyCode::Up),
        'B' => Some(KeyCode::Down),
        'C' => Some(KeyCode::Right),
        'D' => Some(KeyCode::Left),
        'H' => Some(KeyCode::Home),
        'F' => Some(KeyCode::End),
        'P' => Some(KeyCode::Fn(1)),
        'Q' => Some(KeyCode::Fn(2)),
        'R' => Some(KeyCode::Fn(3)),
        'S' => Some(KeyCode::Fn(4)),
        _ => None,
    }
}

fn interpret_csi_special_key_code_value(value: u32) -> (r: Option<KeyCode>)
    ensures
        r == special_key(value as nat),
{
    match value {
        1 | 7 => Some(KeyCode::Home),
        2 => Some(KeyCode::Insert),
        3 => Some(KeyCode::Delete),
        4 | 8 => Some(KeyCode::End),
        5 => Some(KeyCode::PageUp),
        6 => Some(KeyCode::PageDown),
        11..=15 => Some(KeyCode::Fn((value - 10) as u8)),
        17..=21 => Some(KeyCode::Fn((value - 11) as u8)),
        23..=24 => Some(KeyCode::Fn((value - 12) as u8)),
        _ => None,
    }
}

fn lowercase_ascii(c: char) -> (r: char)
    requires
        is_upper(c),
    ensures
        r == lower(c),
{
    ((c as u8) + 32) as char
}

/// Text input: an upper-case ASCII letter becomes its lower case with SHIFT.
fn parse_ascii(c: char) -> (r: KeyEvent)
    ensures
        r == text_key(c),
{
    if 'A' <= c && c <= 'Z' {
        KeyEvent {
            code: KeyCode::Char(lowercase_ascii(c)),
            modifiers: KeyModifiers::shift(),
            kind: KeyEventKind::Pressed,
        }
    } else {
        KeyEvent::new(KeyCode::Char(c))
    }
}

/// A control character: CR and LF are Enter, HT is Tab, DEL and ^H are Backspace, ^A..^Z are
/// CONTROL with a letter, ^\ .. ^_ are CONTROL with '4'..'7', NUL is CONTROL with a space.
fn parse_ctrl_modifier(c: char) -> (r: Option<KeyEvent>)
    ensures
        r == control_key(c),
{
    if c == '\r' || c == '\n' {
        Some(KeyEvent::new(KeyCode::Enter))
    } else if c == '\t' {
        Some(KeyEvent::new(KeyCode::Tab))
    } else if c == '\x7f' || c == '\x08' {
        Some(KeyEvent::new(KeyCode::Backspace))
    } else if '\x01' <= c && c <= '\x1a' {
        Some(KeyEvent {
            code: KeyCode::Char(((c as u8) + 96) as char),
            modifiers: KeyModifiers::control(),
            kind: KeyEventKind::Pressed,
        })
    } else if '\x1c' <= c && c <= '\x1f' {
        Some(KeyEvent {
            code: KeyCode::Char(((c as u8) + 24) as char),
            modifiers: KeyModifiers::control(),
            kind: KeyEventKind::Pressed,
        })
    } else if c == '\0' {
        Some(KeyEvent {
            code: KeyCode::Char(' '),
            modifiers: KeyModifiers::control(),
            kind: KeyEventKind::Pressed,
        })
    } else {
        None
    }
}

fn codepoint_event(c: char) -> (r: KeyEvent)
    ensures
        r == codepoint_key(c),
{
    if c == ESC {
        KeyEvent::new(KeyCode::Escape)
    } else if c == '\r' || c == '\n' {
        KeyEvent::new(KeyCode::Enter)
    } else if c == '\t' {
        KeyEvent::new(KeyCode::Tab)
    } else if c == '\x7f' {
        KeyEvent::new(KeyCode::Backspace)
    } else {
        parse_ascii(c)
    }
}

/// The key of the decimal code point `t[a..b]`, if it is one.
fn parse_csi_u_codepoint(t: &Vec<char>, a: usize, b: usize) -> (r: Option<KeyEvent>)
    requires
        a <= b <= t@.len(),
    ensures
        r == (if is_number(t@, a as int, b as int) && number(t@, a as int, b as int)
            <= MAX_CODEPOINT && is_scalar(number(t@, a as int, b as int) as u32) {
            Some(codepoint_key(number(t@, a as int, b as int) as u32 as char))
        } else {
            None
        }),
{
    match read_number(t, a, b, MAX_CODEPOINT) {
        None => None,
        Some(v) => match char_from_scalar(v) {
            None => None,
            Some(c) => {
                assert(c == v as char) by {
                    vstd::utf8::char_u32_cast(c, v);
                }
                Some(codepoint_event(c))
            },
        },
    }
}

/// `mask[:kind]` in `t[a..b]`.
fn parse_csi_u_modifiers(t: &Vec<char>, a: usize, b: usize) -> (r: Option<(u32, Option<u32>)>)
    requires
        a <= b <= t@.len(),
    ensures
        r == (match modifier_section(t@, a as int, b as int) {
            Some((m, kind)) => Some(
                (
                    m as u32,
                    match kind {
                        Some(v) => Some(v as u32),
                        None => None,
                    },
                ),
            ),
            None => None,
        }),
        r matches Some((m, _)) ==> m <= MAX_MODIFIER,
        r matches Some((_, Some(v))) ==> v <= MAX_MODIFIER,
{
    let c = find_sep(t, a, b, ':');
    match read_number(t, a, c, MAX_MODIFIER) {
        None => None,
        Some(m) => if c == b {
            Some((m, None))
        } else {
            match read_number(t, c + 1, b, MAX_MODIFIER) {
                Some(v) => Some((m, Some(v))),
                None => None,
            }
        },
    }
}

fn apply_modifiers(k: KeyEvent, mask: u32, kind: Option<u32>) -> (r: KeyEvent)
    requires
        mask <= MAX_MODIFIER,
    ensures
        r == apply_section(
            k,
            mask as nat,
            match kind {
                Some(v) => Some(v as nat),
                None => None,
            },
        ),
{
    let m = k.with_modifiers(interpret_key_modifiers_from_mask(mask as u8));
    let m = match kind {
        Some(v) => m.with_kind(interpret_key_event_kind_from_value(v)),
        None => m,
    };
    m.sanitize()
}

fn parse_legacy_modifiers(k: KeyEvent, t: &Vec<char>, a: usize, b: usize) -> (r: Option<KeyEvent>)
    requires
        a <= b <= t@.len(),
    ensures
        r == legacy_modifiers(k, t@, a as int, b as int),
{
    if a == b {
        return Some(k.sanitize());
    }
    match parse_csi_u_modifiers(t, a, b) {
        Some((m, kind)) => Some(apply_modifiers(k, if m == 0 { 0 } else { m - 1 }, kind)),
        None => None,
    }
}

/// `ESC [ code [; mask[:kind]] ~` with parameters `t[j..k]`.
fn parse_csi_special_key_code(t: &Vec<char>, j: usize, k: usize) -> (r: Option<KeyEvent>)
    requires
        j <= k <= t@.len(),
    ensures
        r == tilde_form(t@, j as int, k as int),
{
    let f = find_sep(t, j, k, ';');
    let code = match read_number(t, j, f, MAX_MODIFIER) {
        None => return None,
        Some(v) => match interpret_csi_special_key_code_value(v) {
            None => return None,
            Some(code) => code,
        },
    };
    if f == k {
        Some(KeyEvent::new(code))
    } else if f + 1 == k || find_sep(t, f + 1, k, ';') != k {
        None
    } else {
        parse_legacy_modifiers(KeyEvent::new(code), t, f + 1, k)
    }
}

/// The tail of the `u` form from `f` on (a `;`, or `k`).
fn parse_csi_u_tail(key: KeyEvent, zero: bool, t: &Vec<char>, f: usize, k: usize) -> (r: Option<KeyEvent>)
    requires
        f <= k < t@.len(),
    ensures
        r == u_tail(key, zero, t@, f as int, k as int),
{
    if f == k {
        return Some(key.sanitize());
    }
    let g = find_sep(t, f + 1, k, ';');
    let base = if g < k && zero {
        let d = scan_digits(t, g + 1, k);
        if g + 1 < d {
            parse_csi_u_codepoint(t, g + 1, d)
        } else {
            Some(key)
        }
    } else {
        Some(key)
    };
    match base {
        None => None,
        Some(b) => if f + 1 == g {
            Some(b.sanitize())
        } else {
            match parse_csi_u_modifiers(t, f + 1, g) {
                Some((m, kind)) => Some(apply_modifiers(b, m, kind)),
                None => None,
            }
        },
    }
}

/// The first position from `i` on that holds `u`, or the end of `t`.
fn scan_u(t: &Vec<char>, i: usize) -> (r: usize)
    requires
        i <= t@.len(),
    ensures
        r == find_u(t@, i as int),
        i <= r <= t@.len(),
{
    let mut p = i;
    while p < t.len() && t[p] != 'u'
        invariant
            i <= p <= t@.len(),
            find_u(t@, i as int) == find_u(t@, p as int),
        decreases t@.len() - p,
    {
        p = p + 1;
    }
    p
}

/// The first position in `[a, b)` that holds no digit, or `b`.
fn scan_digits(t: &Vec<char>, a: usize, b: usize) -> (r: usize)
    requires
        a <= b <= t@.len(),
    ensures
        r == digits_end(t@, a as int, b as int),
        a <= r <= b,
        forall|p: int| a <= p < r ==> is_digit(#[trigger] t@[p]),
{
    let mut p = a;
    while p < b && is_digit_char(t[p])
        invariant
            a <= p <= b <= t@.len(),
            digits_end(t@, a as int, b as int) == digits_end(t@, p as int, b as int),
            forall|q: int| a <= q < p ==> is_digit(#[trigger] t@[q]),
        decreases b - p,
    {
        p = p + 1;
    }
    p
}

/// `ESC [ codepoint[:alternates] [; mask[:kind]] [; text] u` with parameters `t[j..k]`.
fn parse_csi_u_encoded_escape_code(t: &Vec<char>, j: usize, k: usize) -> (r: Option<KeyEvent>)
    requires
        j <= k < t@.len(),
    ensures
        r == u_form(t@, j as int, k as int),
{
    let f = find_sep(t, j, k, ';');
    let c = find_sep(t, j, f, ':');
    match read_number(t, j, c, MAX_CODEPOINT) {
        None => None,
        Some(v) => match parse_csi_u_codepoint(t, j, c) {
            None => None,
            Some(key) => parse_csi_u_tail(key, v == 0, t, f, k),
        },
    }
}

/// `ESC [ row ; column R` with parameters `t[j..k]`.
fn parse_csi_cursor_escape_code(t: &Vec<char>, j: usize, k: usize) -> (r: Option<CursorEvent>)
    requires
        j <= k <= t@.len(),
    ensures
        r == cursor_form(t@, j as int, k as int),
{
    let f = find_sep(t, j, k, ';');
    if f == k {
        return None;
    }
    match (read_number(t, j, f, MAX_COORDINATE), read_number(t, f + 1, k, MAX_COORDINATE)) {
        (Some(row), Some(column)) => Some(CursorEvent::Updated { row: row as u16, column: column as u16 }),
        _ => None,
    }
}

/// `ESC [ prefix ; mask[:kind] letter` with parameters `t[j..k]`.
fn parse_csi_modifier_encoded_escape_code(t: &Vec<char>, j: usize, k: usize, code: KeyCode) -> (r: Option<KeyEvent>)
    requires
        j <= k <= t@.len(),
    ensures
        r == modified_letter_form(t@, j as int, k as int, code),
{
    let f = find_sep(t, j, k, ';');
    if f == k || find_sep(t, f + 1, k, ';') != k {
        None
    } else {
        parse_legacy_modifiers(KeyEvent::new(code), t, f + 1, k)
    }
}

/// What the CSI sequence with parameters `t[j..k]` and final character `t[k]` stands for.
fn parse_csi_params(t: &Vec<char>, j: usize, k: usize) -> (r: Result<Event, ParseError>)
    requires
        j <= k < t@.len(),
    ensures
        r == csi_params(t@, j as int, k as int),
{
    let last = t[k];
    if last == '~' {
        match parse_csi_special_key_code(t, j, k) {
            Some(e) => Ok(Event::Key(e)),
            None => Err(ParseError::Malformed),
        }
    } else if last == 'u' {
        match parse_csi_u_encoded_escape_code(t, j, k) {
            Some(e) => Ok(Event::Key(e)),
            None => Err(ParseError::Malformed),
        }
    } else {
        if last == 'R' {
            if let Some(c) = parse_csi_cursor_escape_code(t, j, k) {
                return Ok(Event::Cursor(c));
            }
        }
        match interpret_modifier_key_code_value(last) {
            Some(code) => match parse_csi_modifier_encoded_escape_code(t, j, k, code) {
                Some(e) => Ok(Event::Key(e)),
                None => Err(ParseError::Malformed),
            },
            None => Err(ParseError::NoMatch),
        }
    }
}

/// `ESC O letter` at position `i`.
fn parse_ss3_escape_code(t: &Vec<char>, i: usize) -> (r: Result<(Event, usize), ParseError>)
    requires
        i <= t@.len(),
    ensures
        same_decoded(r, ss3(t@, i as int)),
        r matches Ok((_, e)) ==> i < e <= t@.len(),
{
    let n = t.len();
    if i >= n {
        Err(ParseError::NeedMoreInput)
    } else if t[i] != ESC {
        Err(ParseError::NoMatch)
    } else if i + 1 >= n {
        Err(ParseError::NeedMoreInput)
    } else if t[i + 1] != 'O' {
        Err(ParseError::NoMatch)
    } else if i + 2 >= n {
        Err(ParseError::NeedMoreInput)
    } else {
        match interpret_modifier_key_code_value(t[i + 2]) {
            Some(code) => Ok((Event::Key(KeyEvent::new(code)), i + 3)),
            None => Err(ParseError::NoMatch),
        }
    }
}

/// Whether an executable result is the decoded value `d`.
pub open spec fn same_decoded(r: Result<(Event, usize), ParseError>, d: Decoded) -> bool {
    match r {
        Ok((e, n)) => d == Ok::<(Event, int), ParseError>((e, n as int)),
        Err(x) => d == Err::<(Event, int), ParseError>(x),
    }
}

fn is_letter_char(c: char) -> (r: bool)
    ensures
        r == is_letter(c),
{
    ('A' <= c && c <= 'Z') || ('a' <= c && c <= 'z')
}

/// The CSI body from `j` on, just past `ESC [`.
fn parse_csi_body(t: &Vec<char>, j: usize) -> (r: Result<(Event, usize), ParseError>)
    requires
        j < t@.len(),
    ensures
        same_decoded(r, csi_body(t@, j as int)),
        r matches Ok((_, e)) ==> j < e <= t@.len(),
{
    let n = t.len();
    let c = t[j];
    if c == ESC {
        Ok((Event::Key(KeyEvent::new(KeyCode::Escape)), j + 1))
    } else if c == 'Z' {
        Ok((Event::Key(KeyEvent::new(KeyCode::BackTab).with_modifiers(KeyModifiers::shift()).sanitize()), j + 1))
    } else if c == 'I' {
        Ok((Event::Screen(ScreenEvent::FocusGained), j + 1))
    } else if c == 'O' {
        Ok((Event::Screen(ScreenEvent::FocusLost), j + 1))
    } else if c == 'A' || c == 'B' || c == 'C' || c == 'D' || c == 'H' || c == 'F' {
        match interpret_modifier_key_code_value(c) {
            Some(code) => Ok((Event::Key(KeyEvent::new(code)), j + 1)),
            None => Err(ParseError::NoMatch),
        }
    } else if is_param_char(c) {
        let k = scan_params(t, j);
        let f = find_sep(t, j, k, ';');
        let g = if f < k { find_sep(t, f + 1, k, ';') } else { k };
        if g < k {
            let e = scan_u(t, g + 1);
            if e >= t.len() {
                Err(ParseError::NeedMoreInput)
            } else {
                match parse_csi_u_encoded_escape_code(t, j, e) {
                    Some(ev) => Ok((Event::Key(ev), e + 1)),
                    None => Err(ParseError::Malformed),
                }
            }
        } else if k >= t.len() {
            Err(ParseError::NeedMoreInput)
        } else {
            match parse_csi_params(t, j, k) {
                Ok(e) => Ok((e, k + 1)),
                Err(x) => Err(x),
            }
        }
    } else if is_letter_char(c) {
        let k = scan_params(t, j + 1);
        let f = find_sep(t, j + 1, k, ';');
        let g = if f < k { find_sep(t, f + 1, k, ';') } else { k };
        if g < k {
            let e = scan_u(t, g + 1);
            if e >= t.len() {
                Err(ParseError::NeedMoreInput)
            } else {
                match parse_csi_u_tail(codepoint_event(c), false, t, f, e) {
                    Some(ev) => Ok((Event::Key(ev), e + 1)),
                    None => Err(ParseError::Malformed),
                }
            }
        } else if k >= t.len() {
            Err(ParseError::NeedMoreInput)
        } else if t[k] != 'u' {
            Err(ParseError::NoMatch)
        } else {
            match parse_csi_u_tail(codepoint_event(c), false, t, f, k) {
                Some(e) => Ok((Event::Key(e), k + 1)),
                None => Err(ParseError::Malformed),
            }
        }
    } else {
        Err(ParseError::NoMatch)
    }
}

/// `ESC [ ...` at position `i`.
fn parse_csi_escape_code(t: &Vec<char>, i: usize) -> (r: Result<(Event, usize), ParseError>)
    requires
        i <= t@.len(),
    ensures
        same_decoded(r, csi(t@, i as int)),
        r matches Ok((_, e)) ==> i < e <= t@.len(),
{
    let n = t.len();
    if i >= n {
        Err(ParseError::NeedMoreInput)
    } else if t[i] != ESC {
        Err(ParseError::NoMatch)
    } else if i + 1 >= n {
        Err(ParseError::NeedMoreInput)
    } else if t[i + 1] != '[' {
        Err(ParseError::NoMatch)
    } else if i + 2 >= n {
        Err(ParseError::NeedMoreInput)
    } else {
        parse_csi_body(t, i + 2)
    }
}

/// `ESC` and then a whole event, at position `i`: ALT is added to a key, and other events
/// pass through.
fn parse_alt_modifier(t: &Vec<char>, i: usize) -> (r: Result<(Event, usize), ParseError>)
    requires
        i < t@.len(),
        t@[i as int] == ESC,
    ensures
        same_decoded(
            r,
            match decode(t@, i + 1, true) {
                Ok((Event::Key(k), e)) => Ok(
                    (Event::Key(sanitized(add_modifiers(k, KeyModifiers { bits: ALT_BIT }))), e),
                ),
                d => d,
            },
        ),
        r matches Ok((_, e)) ==> i < e <= t@.len(),
    decreases 1int,
{
    let n = t.len();
    assert(i + 1 <= n);
    match parse_at(t, i + 1, true) {
        Ok((Event::Key(k), e)) => Ok((Event::Key(k.with_modifiers(KeyModifiers::alt()).sanitize()), e)),
        r => r,
    }
}

/// The event that the text from position `i` on opens with; see `decode`.
pub fn parse_at(t: &Vec<char>, i: usize, nested: bool) -> (r: Result<(Event, usize), ParseError>)
    requires
        i <= t@.len(),
    ensures
        same_decoded(r, decode(t@, i as int, nested)),
        r matches Ok((_, e)) ==> i < e <= t@.len(),
    decreases (if nested { 0int } else { 2int }),
{
    if i >= t.len() {
        return Err(ParseError::NeedMoreInput);
    }
    let r = parse_ss3_escape_code(t, i);
    if !matches!(r, Err(ParseError::NoMatch)) {
        return r;
    }
    let r = parse_csi_escape_code(t, i);
    if !matches!(r, Err(ParseError::NoMatch)) {
        return r;
    }
    if !nested && t[i] == ESC {
        return parse_alt_modifier(t, i);
    }
    let c = t[i];
    let k = match parse_ctrl_modifier(c) {
        Some(k) => k,
        None => parse_ascii(c),
    };
    Ok((Event::Key(k), i + 1))
}

/// The characters of `s`, in order.
pub fn chars_of(s: &str) -> (r: Vec<char>)
    ensures
        r@ == s@,
{
    let n = s.unicode_len();
    let mut v: Vec<char> = Vec::new();
    let mut i: usize = 0;
    while i < n
        invariant
            n == s@.len(),
            i <= n,
            v@ == s@.subrange(0, i as int),
        decreases n - i,
    {
        v.push(s.get_char(i));
        i = i + 1;
    }
    v
}

/// The event that `input` opens with, and the text after it.
pub fn parse(input: &str) -> (r: Result<(&str, Event), ParseError>)
    ensures
        match grammar(input@) {
            Ok((e, n)) => r matches Ok((rest, ev)) && ev == e && rest@ == input@.subrange(
                n,
                input@.len() as int,
            ),
            Err(x) => r == Err::<(&str, Event), ParseError>(x),
        },
{
    let t = chars_of(input);
    match parse_at(&t, 0, false) {
        Ok((e, n)) => Ok((input.substring_char(n, t.len()), e)),
        Err(x) => Err(x),
    }
}

/// Whether `k` is in canonical form: no Tab held with SHIFT.
pub open spec fn is_canonical(k: KeyEvent) -> bool {
    !(k.code == KeyCode::Tab && k.modifiers.bits & SHIFT_BIT == SHIFT_BIT)
}

/// Making a key event canonical turns Tab with SHIFT into BackTab and keeps SHIFT; the result
/// is canonical, and doing it twice is doing it once.
pub proof fn lemma_sanitize_idempotent(k: KeyEvent)
    ensures
        sanitized(sanitized(k)) == sanitized(k),
        is_canonical(sanitized(k)),
        (k.code == KeyCode::Tab && k.modifiers.bits & SHIFT_BIT == SHIFT_BIT) ==> sanitized(k).code
            == KeyCode::BackTab && sanitized(k).modifiers == k.modifiers,
{
}

/// Every key that the grammar yields is canonical, whichever form it came from.
pub proof fn lemma_decoded_keys_canonical(s: Seq<char>, i: int, nested: bool)
    ensures
        decode(s, i, nested) matches Ok((Event::Key(k), _)) ==> is_canonical(k),
    decreases (if nested { 0int } else { 1int }),
{
    assert(SHIFT_BIT & SHIFT_BIT == SHIFT_BIT) by (bit_vector);
    assert(0u8 & SHIFT_BIT != SHIFT_BIT) by (bit_vector);
    if !nested {
        lemma_decoded_keys_canonical(s, i + 1, true);
    }
    if 0 <= i < s.len() {
        let c = s[i];
        if ss3(s, i) == Err::<(Event, int), ParseError>(ParseError::NoMatch) && csi(s, i) == Err::<
            (Event, int),
            ParseError,
        >(ParseError::NoMatch) {
            if '\x01' <= c <= '\x1a' {
                assert(crate::events::CONTROL_BIT & SHIFT_BIT != SHIFT_BIT) by (bit_vector);
            }
        }
    }
}

/// An upper-case ASCII letter alone decodes to its lower case with SHIFT.
pub proof fn lemma_upper_case_is_shift(c: char)
    requires
        is_upper(c),
    ensures
        grammar(seq![c]) == Ok::<(Event, int), ParseError>(
            (
                Event::Key(
                    KeyEvent {
                        code: KeyCode::Char(lower(c)),
                        modifiers: KeyModifiers { bits: SHIFT_BIT },
                        kind: KeyEventKind::Pressed,
                    },
                ),
                1,
            ),
        ),
        'a' <= lower(c) <= 'z',
        lower(c) as u32 == c as u32 + 32,
{
}

/// ^H and DEL both decode to Backspace with no modifier.
pub proof fn lemma_backspace_bytes()
    ensures
        grammar(seq!['\x08']) == Ok::<(Event, int), ParseError>((Event::Key(plain_key(KeyCode::Backspace)), 1)),
        grammar(seq!['\x7f']) == Ok::<(Event, int), ParseError>((Event::Key(plain_key(KeyCode::Backspace)), 1)),
{
}

pub open spec fn two_digits(d1: char, d2: char) -> nat {
    ((d1 as u32 - '0' as u32) * 10 + (d2 as u32 - '0' as u32)) as nat
}

/// The known short sequences decode whole to their events: `ESC O` and a letter of its
/// table, `ESC [` and an arrow, Home or End letter, the focus reports, BackTab, and the
/// numbered keys `ESC [ n ~` of one or two digits.
pub proof fn lemma_known_sequences(c: char, d1: char, d2: char)
    ensures
        letter_key(c) is Some ==> grammar(seq![ESC, 'O', c]) == Ok::<(Event, int), ParseError>(
            (Event::Key(plain_key(letter_key(c)->0)), 3),
        ),
        (c == 'A' || c == 'B' || c == 'C' || c == 'D' || c == 'H' || c == 'F') ==> grammar(
            seq![ESC, '[', c],
        ) == Ok::<(Event, int), ParseError>((Event::Key(plain_key(letter_key(c)->0)), 3)),
        grammar(seq![ESC, '[', 'I']) == Ok::<(Event, int), ParseError>((Event::Screen(ScreenEvent::FocusGained), 3)),
        grammar(seq![ESC, '[', 'O']) == Ok::<(Event, int), ParseError>((Event::Screen(ScreenEvent::FocusLost), 3)),
        grammar(seq![ESC, '[', 'Z']) == Ok::<(Event, int), ParseError>(
            (
                Event::Key(
                    KeyEvent {
                        code: KeyCode::BackTab,
                        modifiers: KeyModifiers { bits: SHIFT_BIT },
                        kind: KeyEventKind::Pressed,
                    },
                ),
                3,
            ),
        ),
        is_digit(d1) && special_key((d1 as u32 - '0' as u32) as nat) is Some ==> grammar(
            seq![ESC, '[', d1, '~'],
        ) == Ok::<(Event, int), ParseError>(
            (Event::Key(plain_key(special_key((d1 as u32 - '0' as u32) as nat)->0)), 4),
        ),
        is_digit(d1) && is_digit(d2) && special_key(two_digits(d1, d2)) is Some ==> grammar(
            seq![ESC, '[', d1, d2, '~'],
        ) == Ok::<(Event, int), ParseError>(
            (Event::Key(plain_key(special_key(two_digits(d1, d2))->0)), 5),
        ),
{
    assert(0u8 | SHIFT_BIT == SHIFT_BIT) by (bit_vector);
    assert(SHIFT_BIT & SHIFT_BIT == SHIFT_BIT) by (bit_vector);
    let s1 = seq![ESC, '[', d1, '~'];
    if is_digit(d1) {
        assert(param_end(s1, 2) == 3) by {
            reveal_with_fuel(param_end, 3);
        }
        assert(next_sep(s1, 2, 3, ';') == 3) by {
            reveal_with_fuel(next_sep, 3);
        }
        assert(number(s1, 2, 3) == (d1 as u32 - '0' as u32) as nat) by {
            reveal_with_fuel(number, 3);
        }
    }
    let s2 = seq![ESC, '[', d1, d2, '~'];
    if is_digit(d1) && is_digit(d2) {
        assert(param_end(s2, 2) == 4) by {
            reveal_with_fuel(param_end, 4);
        }
        assert(next_sep(s2, 2, 4, ';') == 4) by {
            reveal_with_fuel(next_sep, 4);
        }
        assert(number(s2, 2, 4) == two_digits(d1, d2)) by {
            reveal_with_fuel(number, 4);
        }
    }
}

/// Whether `p` is the beginning of `t`.
pub open spec fn is_prefix(p: Seq<char>, t: Seq<char>) -> bool {
    p.len() <= t.len() && forall|x: int| 0 <= x < p.len() ==> #[trigger] p[x] == t[x]
}

proof fn lemma_next_sep_prefix(p: Seq<char>, t: Seq<char>, j: int, k: int, c: char)
    requires
        is_prefix(p, t),
        0 <= j,
        k <= p.len(),
    ensures
        next_sep(p, j, k, c) == next_sep(t, j, k, c),
        j <= k ==> j <= next_sep(p, j, k, c) <= k,
    decreases k - j,
{
    if j < k {
        assert(p[j] == t[j]);
        lemma_next_sep_prefix(p, t, j + 1, k, c);
    }
}

proof fn lemma_number_prefix(p: Seq<char>, t: Seq<char>, a: int, b: int)
    requires
        is_prefix(p, t),
        0 <= a,
        b <= p.len(),
    ensures
        number(p, a, b) == number(t, a, b),
        is_number(p, a, b) == is_number(t, a, b),
    decreases b - a,
{
    if a < b {
        assert(p[b - 1] == t[b - 1]);
        lemma_number_prefix(p, t, a, b - 1);
    }
    if is_number(t, a, b) {
        assert forall|x: int| a <= x < b implies is_digit(#[trigger] p[x]) by {
            assert(p[x] == t[x]);
        }
    }
}

proof fn lemma_param_end_prefix(p: Seq<char>, t: Seq<char>, j: int)
    requires
        is_prefix(p, t),
        0 <= j,
    ensures
        j <= param_end(p, j),
        j <= p.len() ==> param_end(p, j) <= param_end(t, j),
        param_end(p, j) < p.len() ==> param_end(t, j) == param_end(p, j),
    decreases p.len() - j,
{
    if j <= p.len() {
        lemma_param_end_bound(t, j);
    }
    if j < p.len() {
        assert(p[j] == t[j]);
        if is_param(p[j]) {
            lemma_param_end_prefix(p, t, j + 1);
        }
    }
}

proof fn lemma_modifier_section_prefix(p: Seq<char>, t: Seq<char>, a: int, b: int)
    requires
        is_prefix(p, t),
        0 <= a <= b,
        b <= p.len(),
    ensures
        modifier_section(p, a, b) == modifier_section(t, a, b),
        forall|k: KeyEvent| legacy_modifiers(k, p, a, b) == legacy_modifiers(k, t, a, b),
{
    lemma_next_sep_prefix(p, t, a, b, ':');
    let c = next_sep(p, a, b, ':');
    lemma_number_prefix(p, t, a, c);
    lemma_number_prefix(p, t, c + 1, b);
}

proof fn lemma_csi_params_prefix(p: Seq<char>, t: Seq<char>, j: int, k: int)
    requires
        is_prefix(p, t),
        0 <= j <= k,
        k < p.len(),
    ensures
        csi_params(p, j, k) == csi_params(t, j, k),
{
    assert(p[k] == t[k]);
    lemma_next_sep_prefix(p, t, j, k, ';');
    let f = next_sep(p, j, k, ';');
    lemma_next_sep_prefix(p, t, j, f, ':');
    let c = next_sep(p, j, f, ':');
    lemma_number_prefix(p, t, j, f);
    lemma_number_prefix(p, t, j, c);
    lemma_number_prefix(p, t, f + 1, k);
    lemma_u_form_prefix(p, t, j, k);
    if f < k {
        lemma_next_sep_prefix(p, t, f + 1, k, ';');
        lemma_modifier_section_prefix(p, t, f + 1, k);
    }
}

proof fn lemma_u_tail_prefix(p: Seq<char>, t: Seq<char>, f: int, k: int)
    requires
        is_prefix(p, t),
        0 <= f <= k,
        k < p.len(),
    ensures
        forall|key: KeyEvent, zero: bool| u_tail(key, zero, p, f, k) == u_tail(key, zero, t, f, k),
{
    lemma_next_sep_prefix(p, t, f + 1, k, ';');
    let g = next_sep(p, f + 1, k, ';');
    if f < k {
        lemma_modifier_section_prefix(p, t, f + 1, g);
    }
    if g < k {
        lemma_digits_end_prefix(p, t, g + 1, k);
        let d = digits_end(p, g + 1, k);
        lemma_number_prefix(p, t, g + 1, d);
    }
}

proof fn lemma_u_form_prefix(p: Seq<char>, t: Seq<char>, j: int, k: int)
    requires
        is_prefix(p, t),
        0 <= j <= k,
        k < p.len(),
    ensures
        u_form(p, j, k) == u_form(t, j, k),
{
    lemma_next_sep_prefix(p, t, j, k, ';');
    let f = next_sep(p, j, k, ';');
    lemma_next_sep_prefix(p, t, j, f, ':');
    let c = next_sep(p, j, f, ':');
    lemma_number_prefix(p, t, j, c);
    lemma_u_tail_prefix(p, t, f, k);
}

proof fn lemma_find_u_prefix(p: Seq<char>, t: Seq<char>, i: int)
    requires
        is_prefix(p, t),
        0 <= i,
    ensures
        i <= p.len() ==> i <= find_u(p, i) <= p.len(),
        find_u(p, i) < p.len() ==> find_u(t, i) == find_u(p, i),
    decreases p.len() - i,
{
    if i < p.len() {
        assert(p[i] == t[i]);
        if p[i] != 'u' {
            lemma_find_u_prefix(p, t, i + 1);
        }
    }
}

proof fn lemma_digits_end_prefix(p: Seq<char>, t: Seq<char>, a: int, b: int)
    requires
        is_prefix(p, t),
        0 <= a,
        b <= p.len(),
    ensures
        digits_end(p, a, b) == digits_end(t, a, b),
        a <= b ==> a <= digits_end(p, a, b) <= b,
    decreases b - a,
{
    if a < b {
        assert(p[a] == t[a]);
        lemma_digits_end_prefix(p, t, a + 1, b);
    }
}

/// A separator found before `k` is found at the same place in any longer range.
proof fn lemma_next_sep_extend(s: Seq<char>, j: int, k: int, k2: int, c: char)
    requires
        next_sep(s, j, k, c) < k,
        k <= k2,
    ensures
        next_sep(s, j, k2, c) == next_sep(s, j, k, c),
    decreases k - j,
{
    if j < k && s[j] != c {
        lemma_next_sep_extend(s, j + 1, k, k2, c);
    }
}

/// The positions of the first two `;` of the parameters from `j` on, as `csi_body` finds
/// them, do not change when the text grows, once the second lies within `p`'s parameters.
proof fn lemma_two_seps_prefix(p: Seq<char>, t: Seq<char>, j: int)
    requires
        is_prefix(p, t),
        0 <= j <= p.len(),
    ensures
        ({
            let kp = param_end(p, j);
            let kt = param_end(t, j);
            let fp = next_sep(p, j, kp, ';');
            let gp = next_sep(p, fp + 1, kp, ';');
            let ft = next_sep(t, j, kt, ';');
            let gt = next_sep(t, ft + 1, kt, ';');
            &&& j <= fp <= kp
            &&& gp <= kp
            &&& kp <= p.len()
            &&& (gp < kp ==> fp < gp && ft == fp && gt == gp && gt < kt)
            &&& (kp < p.len() ==> kt == kp && ft == fp && gt == gp)
        }),
{
    lemma_param_end_prefix(p, t, j);
    let kp = param_end(p, j);
    let kt = param_end(t, j);
    lemma_param_end_bound(p, j);
    lemma_next_sep_prefix(p, t, j, kp, ';');
    let fp = next_sep(p, j, kp, ';');
    lemma_next_sep_prefix(p, t, fp + 1, kp, ';');
    let gp = next_sep(p, fp + 1, kp, ';');
    if gp < kp {
        assert(fp < kp);
        lemma_next_sep_extend(t, j, kp, kt, ';');
        lemma_next_sep_extend(t, fp + 1, kp, kt, ';');
    }
}

proof fn lemma_param_end_bound(s: Seq<char>, j: int)
    requires
        0 <= j <= s.len(),
    ensures
        j <= param_end(s, j) <= s.len(),
    decreases s.len() - j,
{
    if j < s.len() && is_param(s[j]) {
        lemma_param_end_bound(s, j + 1);
    }
}

proof fn lemma_csi_body_prefix(p: Seq<char>, t: Seq<char>, j: int)
    requires
        is_prefix(p, t),
        0 <= j < p.len(),
        csi_body(p, j) != Err::<(Event, int), ParseError>(ParseError::NeedMoreInput),
    ensures
        csi_body(p, j) == csi_body(t, j),
        csi_body(p, j) matches Ok((_, e)) ==> e <= p.len(),
{
    assert(p[j] == t[j]);
    let c = p[j];
    if is_param(c) || is_letter(c) {
        let j0 = if is_param(c) { j } else { j + 1 };
        lemma_two_seps_prefix(p, t, j0);
        let k = param_end(p, j0);
        let f = next_sep(p, j0, k, ';');
        let g = next_sep(p, f + 1, k, ';');
        if g < k {
            lemma_find_u_prefix(p, t, g + 1);
            let e = find_u(p, g + 1);
            if e < p.len() {
                lemma_u_form_prefix(p, t, j, e);
                lemma_u_tail_prefix(p, t, f, e);
            }
        } else if k < p.len() {
            assert(p[k] == t[k]);
            if is_param(c) {
                lemma_csi_params_prefix(p, t, j, k);
            } else {
                lemma_u_tail_prefix(p, t, f, k);
            }
        }
    }
}

/// Where the grammar decides on the text `p` (anything but a need for more input), it decides
/// the same on every text that begins with `p`, and an event it finds lies within `p`.
pub proof fn lemma_decision_is_stable(p: Seq<char>, t: Seq<char>, i: int, nested: bool)
    requires
        is_prefix(p, t),
        decode(p, i, nested) != Err::<(Event, int), ParseError>(ParseError::NeedMoreInput),
    ensures
        decode(t, i, nested) == decode(p, i, nested),
        decode(p, i, nested) matches Ok((_, e)) ==> e <= p.len(),
    decreases (if nested { 0int } else { 1int }),
{
    assert(p[i] == t[i]);
    if i + 1 < p.len() {
        assert(p[i + 1] == t[i + 1]);
    }
    if i + 2 < p.len() {
        assert(p[i + 2] == t[i + 2]);
        if csi_body(p, i + 2) != Err::<(Event, int), ParseError>(ParseError::NeedMoreInput) {
            lemma_csi_body_prefix(p, t, i + 2);
        }
    }
    if !nested && ss3(p, i) == Err::<(Event, int), ParseError>(ParseError::NoMatch) && csi(p, i)
        == Err::<(Event, int), ParseError>(ParseError::NoMatch) && p[i] == ESC {
        lemma_decision_is_stable(p, t, i + 1, true);
    }
}

/// A proper beginning of a text that decodes whole to one event needs more input.
pub proof fn lemma_prefix_needs_more(t: Seq<char>, m: int)
    requires
        0 <= m < t.len(),
        grammar(t) matches Ok((_, n)) && n == t.len(),
    ensures
        grammar(t.subrange(0, m)) == Err::<(Event, int), ParseError>(ParseError::NeedMoreInput),
{
    let p = t.subrange(0, m);
    if grammar(p) != Err::<(Event, int), ParseError>(ParseError::NeedMoreInput) {
        lemma_decision_is_stable(p, t, 0, false);
    }
}

proof fn lemma_decimal_digits(n: nat)
    ensures
        decimal(n).len() >= 1,
        forall|i: int| 0 <= i < decimal(n).len() ==> is_digit(#[trigger] decimal(n)[i]),
    decreases n,
{
    let d = (n % 10) as nat;
    assert(is_digit(digit_char(d)));
    if n >= 10 {
        lemma_decimal_digits(n / 10);
    }
}

proof fn lemma_decimal_number(s: Seq<char>, a: int, n: nat)
    requires
        0 <= a,
        a + decimal(n).len() <= s.len(),
        forall|i: int| 0 <= i < decimal(n).len() ==> s[a + i] == #[trigger] decimal(n)[i],
    ensures
        is_number(s, a, a + decimal(n).len()),
        number(s, a, a + decimal(n).len()) == n,
    decreases n,
{
    lemma_decimal_digits(n);
    let l = decimal(n).len() as int;
    assert forall|p: int| a <= p < a + l implies is_digit(#[trigger] s[p]) by {
        assert(s[a + (p - a)] == decimal(n)[p - a]);
    }
    let d = (n % 10) as nat;
    assert((digit_char(d) as u32 - '0' as u32) as nat == d);
    assert(s[a + l - 1] == decimal(n)[l - 1]);
    if n >= 10 {
        let m = n / 10;
        assert forall|i: int| 0 <= i < decimal(m).len() implies s[a + i] == #[trigger] decimal(m)[i] by {
            assert(decimal(n)[i] == decimal(m)[i]);
        }
        lemma_decimal_number(s, a, m);
        assert(decimal(m).len() == l - 1);
        assert(number(s, a, a + l) == number(s, a, a + l - 1) * 10 + d);
        assert(n == m * 10 + d);
    } else {
        assert(l == 1);
        assert(number(s, a, a) == 0);
        assert(number(s, a, a + 1) == number(s, a, a) * 10 + d);
    }
}

proof fn lemma_next_sep_skip(s: Seq<char>, j: int, m: int, k: int, c: char)
    requires
        0 <= m,
        j + m <= k,
        forall|x: int| j <= x < j + m ==> #[trigger] s[x] != c,
    ensures
        next_sep(s, j, k, c) == next_sep(s, j + m, k, c),
    decreases m,
{
    if m > 0 {
        assert(s[j] != c);
        lemma_next_sep_skip(s, j + 1, m - 1, k, c);
    }
}

proof fn lemma_param_end_skip(s: Seq<char>, j: int, m: int)
    requires
        0 <= m,
        j + m <= s.len(),
        forall|x: int| j <= x < j + m ==> is_param(#[trigger] s[x]),
    ensures
        param_end(s, j) == param_end(s, j + m),
    decreases m,
{
    if m > 0 {
        assert(is_param(s[j]));
        lemma_param_end_skip(s, j + 1, m - 1);
    }
}

proof fn lemma_find_u_skip(s: Seq<char>, i: int, m: int)
    requires
        0 <= m,
        i + m <= s.len(),
        forall|x: int| i <= x < i + m ==> #[trigger] s[x] != 'u',
    ensures
        find_u(s, i) == find_u(s, i + m),
    decreases m,
{
    if m > 0 {
        assert(s[i] != 'u');
        lemma_find_u_skip(s, i + 1, m - 1);
    }
}

/// The text of a cursor-position report: `ESC [ row ; column R` in decimal.
pub open spec fn cursor_report_text(row: u16, column: u16) -> Seq<char> {
    seq![ESC, '['] + decimal(row as nat) + seq![';'] + decimal(column as nat) + seq!['R']
}

/// Every cursor-position report decodes whole to its row and column: the report wins over
/// the `R` of F3 with modifiers, and the values are carried over as sent.
pub proof fn lemma_cursor_reports(row: u16, column: u16)
    ensures
        grammar(cursor_report_text(row, column)) == Ok::<(Event, int), ParseError>(
            (
                Event::Cursor(CursorEvent::Updated { row, column }),
                cursor_report_text(row, column).len() as int,
            ),
        ),
{
    let s = cursor_report_text(row, column);
    let dr = decimal(row as nat);
    let dc = decimal(column as nat);
    lemma_decimal_digits(row as nat);
    lemma_decimal_digits(column as nat);
    let lr = dr.len() as int;
    let lc = dc.len() as int;
    let f = 2 + lr;
    let k = f + 1 + lc;
    assert(s.len() == k + 1);
    assert forall|i: int| 0 <= i < lr implies s[2 + i] == #[trigger] dr[i] by {}
    assert forall|i: int| 0 <= i < lc implies s[f + 1 + i] == #[trigger] dc[i] by {}
    assert(s[f] == ';');
    assert(s[k] == 'R');
    assert forall|x: int| 2 <= x < k implies is_param(#[trigger] s[x]) by {
        if x < f {
            assert(s[2 + (x - 2)] == dr[x - 2]);
        } else if x > f {
            assert(s[f + 1 + (x - f - 1)] == dc[x - f - 1]);
        }
    }
    lemma_param_end_skip(s, 2, k - 2);
    assert(param_end(s, 2) == k);
    assert forall|x: int| 2 <= x < f implies #[trigger] s[x] != ';' by {
        assert(s[2 + (x - 2)] == dr[x - 2]);
    }
    lemma_next_sep_skip(s, 2, lr, k, ';');
    assert(next_sep(s, 2, k, ';') == f);
    assert forall|x: int| f + 1 <= x < k implies #[trigger] s[x] != ';' by {
        assert(s[f + 1 + (x - f - 1)] == dc[x - f - 1]);
    }
    lemma_next_sep_skip(s, f + 1, lc, k, ';');
    assert(next_sep(s, f + 1, k, ';') == k);
    lemma_decimal_number(s, 2, row as nat);
    lemma_decimal_number(s, f + 1, column as nat);
    assert(is_digit(s[2]));
}

/// The text `ESC [ cp ; m : kind ; text u` of the extended keyboard protocol.
pub open spec fn u_key_text(cp: nat, m: nat, kind: nat, text: Seq<char>) -> Seq<char> {
    seq![ESC, '['] + decimal(cp) + seq![';'] + decimal(m) + seq![':'] + decimal(kind) + seq![';'] + text
        + seq!['u']
}

/// Every extended-protocol key with a code point other than 0, a mask and a kind decodes
/// whole to the key of that code point with the mask (taken as it is) and the kind; the
/// associated text, whatever it holds but `u`, is read and dropped.
#[verifier::rlimit(100)]
#[verifier::spinoff_prover]
pub proof fn lemma_u_key_sequences(cp: u32, m: u8, kind: u8, text: Seq<char>)
    requires
        0 < cp <= MAX_CODEPOINT,
        is_scalar(cp),
        forall|x: int| 0 <= x < text.len() ==> #[trigger] text[x] != 'u',
    ensures
        grammar(u_key_text(cp as nat, m as nat, kind as nat, text)) == Ok::<(Event, int), ParseError>(
            (
                Event::Key(apply_section(codepoint_key(cp as char), m as nat, Some(kind as nat))),
                u_key_text(cp as nat, m as nat, kind as nat, text).len() as int,
            ),
        ),
{
    let s = u_key_text(cp as nat, m as nat, kind as nat, text);
    let d1 = decimal(cp as nat);
    let d2 = decimal(m as nat);
    let d3 = decimal(kind as nat);
    lemma_decimal_digits(cp as nat);
    lemma_decimal_digits(m as nat);
    lemma_decimal_digits(kind as nat);
    let f: int = 2 + d1.len() as int;
    let c: int = f + 1 + d2.len() as int;
    let g: int = c + 1 + d3.len() as int;
    let e: int = g + 1 + text.len() as int;
    assert(s.len() == e + 1);
    assert forall|i: int| 0 <= i < d1.len() implies s[2 + i] == #[trigger] d1[i] by {}
    assert forall|i: int| 0 <= i < d2.len() implies s[f + 1 + i] == #[trigger] d2[i] by {}
    assert forall|i: int| 0 <= i < d3.len() implies s[c + 1 + i] == #[trigger] d3[i] by {}
    assert forall|i: int| 0 <= i < text.len() implies s[g + 1 + i] == #[trigger] text[i] by {}
    assert(s[f] == ';' && s[c] == ':' && s[g] == ';' && s[e] == 'u');
    assert forall|x: int| 2 <= x <= g implies is_param(#[trigger] s[x]) && (x != f && x != g ==> s[x]
        != ';') && (x != c ==> s[x] != ':') by {
        if x < f {
            assert(s[2 + (x - 2)] == d1[x - 2]);
        } else if f < x < c {
            assert(s[f + 1 + (x - f - 1)] == d2[x - f - 1]);
        } else if c < x < g {
            assert(s[c + 1 + (x - c - 1)] == d3[x - c - 1]);
        }
    }
    lemma_param_end_skip(s, 2, g + 1 - 2);
    let k = param_end(s, 2);
    lemma_param_end_bound(s, g + 1);
    lemma_next_sep_skip(s, 2, f - 2, k, ';');
    lemma_next_sep_skip(s, f + 1, g - f - 1, k, ';');
    assert(next_sep(s, 2, k, ';') == f);
    assert(next_sep(s, f + 1, k, ';') == g);
    assert forall|x: int| g + 1 <= x < e implies #[trigger] s[x] != 'u' by {
        assert(s[g + 1 + (x - g - 1)] == text[x - g - 1]);
    }
    lemma_find_u_skip(s, g + 1, e - g - 1);
    assert(find_u(s, g + 1) == e);
    lemma_next_sep_skip(s, 2, f - 2, e, ';');
    lemma_next_sep_skip(s, 2, f - 2, f, ':');
    lemma_next_sep_skip(s, f + 1, g - f - 1, e, ';');
    lemma_next_sep_skip(s, f + 1, c - f - 1, g, ':');
    lemma_decimal_number(s, 2, cp as nat);
    lemma_decimal_number(s, f + 1, m as nat);
    lemma_decimal_number(s, c + 1, kind as nat);
    assert(is_digit(s[2]));
}

} // verus!
