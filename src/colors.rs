//! Colors and the SGR parameters that select them.

use vstd::prelude::*;

use crate::ansi::{decimal, push_char, push_decimal, push_str};

verus! {

/// A color: one of the sixteen named ones, an RGB triple, or an index of the 256-color
/// palette. `Reset` stands for the terminal's default.
#[derive(Clone, Copy, Debug, PartialEq, Eq, Structural, Hash)]
pub enum Color {
    Reset,
    DarkGrey,
    Red,
    Green,
    Yellow,
    Blue,
    Magenta,
    Cyan,
    White,
    Black,
    DarkRed,
    DarkGreen,
    DarkYellow,
    DarkBlue,
    DarkMagenta,
    DarkCyan,
    Grey,
    Rgb { r: u8, g: u8, b: u8 },
    Ansi(u8),
}

/// The palette index of a named color.
pub open spec fn palette_index(c: Color) -> nat {
    match c {
        Color::Black => 0,
        Color::DarkRed => 1,
        Color::DarkGreen => 2,
        Color::DarkYellow => 3,
        Color::DarkBlue => 4,
        Color::DarkMagenta => 5,
        Color::DarkCyan => 6,
        Color::Grey => 7,
        Color::DarkGrey => 8,
        Color::Red => 9,
        Color::Green => 10,
        Color::Yellow => 11,
        Color::Blue => 12,
        Color::Magenta => 13,
        Color::Cyan => 14,
        Color::White => 15,
        Color::Ansi(v) => v as nat,
        _ => 0,
    }
}

/// The SGR parameters that select `c` (none for `Reset`): `2;r;g;b` or `5;index`.
pub open spec fn color_params(c: Color) -> Seq<char> {
    match c {
        Color::Reset => Seq::empty(),
        Color::Rgb { r, g, b } => "2;"@ + decimal(r as nat) + seq![';'] + decimal(g as nat) + seq![';'] + decimal(
            b as nat,
        ),
        _ => "5;"@ + decimal(palette_index(c)),
    }
}

/// The parameters that set a color in one of the three places: `reset` for `Reset`, else
/// `set;` and the color's own.
pub open spec fn place_params(c: Color, reset: Seq<char>, set: Seq<char>) -> Seq<char> {
    if c is Reset {
        reset
    } else {
        set + color_params(c)
    }
}

pub open spec fn background_params(c: Color) -> Seq<char> {
    place_params(c, "49"@, "48;"@)
}

pub open spec fn foreground_params(c: Color) -> Seq<char> {
    place_params(c, "39"@, "38;"@)
}

pub open spec fn underline_params(c: Color) -> Seq<char> {
    place_params(c, "59"@, "58;"@)
}

impl Color {
    fn palette(&self) -> (r: u8)
        requires
            !(*self is Reset),
            !(*self is Rgb),
        ensures
            r as nat == palette_index(*self),
    {
        match *self {
            Color::Black => 0,
            Color::DarkRed => 1,
            Color::DarkGreen => 2,
            Color::DarkYellow => 3,
            Color::DarkBlue => 4,
            Color::DarkMagenta => 5,
            Color::DarkCyan => 6,
            Color::Grey => 7,
            Color::DarkGrey => 8,
            Color::Red => 9,
            Color::Green => 10,
            Color::Yellow => 11,
            Color::Blue => 12,
            Color::Magenta => 13,
            Color::Cyan => 14,
            Color::White => 15,
            Color::Ansi(v) => v,
            _ => 0,
        }
    }

    /// Appends the parameters that select the color; `Reset` has none, and gives `false`.
    pub fn write(&self, out: &mut String) -> (r: bool)
        ensures
            r == !(*self is Reset),
            final(out)@ == old(out)@ + color_params(*self),
    {
        let ghost start = out@;
        match *self {
            Color::Reset => {
                assert(start + Seq::<char>::empty() =~= start);
                false
            },
            Color::Rgb { r, g, b } => {
                push_str(out, "2;");
                push_decimal(out, r as u32);
                push_char(out, ';');
                push_decimal(out, g as u32);
                push_char(out, ';');
                push_decimal(out, b as u32);
                assert(((start + "2;"@ + decimal(r as nat)).push(';') + decimal(g as nat)).push(';')
                    + decimal(b as nat) =~= start + color_params(*self));
                true
            },
            _ => {
                push_str(out, "5;");
                push_decimal(out, self.palette() as u32);
                assert(start + "5;"@ + decimal(palette_index(*self)) =~= start + color_params(*self));
                true
            },
        }
    }
}

fn push_place(out: &mut String, c: Color, reset: &str, set: &str)
    ensures
        final(out)@ == old(out)@ + place_params(c, reset@, set@),
{
    let ghost start = out@;
    if matches!(c, Color::Reset) {
        push_str(out, reset);
    } else {
        push_str(out, set);
        c.write(out);
        assert(start + set@ + color_params(c) =~= start + (set@ + color_params(c)));
    }
}

/// A color as the background.
pub struct Background(pub Color);

impl Background {
    pub fn write(&self, out: &mut String)
        ensures
            final(out)@ == old(out)@ + background_params(self.0),
    {
        push_place(out, self.0, "49", "48;");
    }
}

/// A color as the foreground.
pub struct Foreground(pub Color);

impl Foreground {
    pub fn write(&self, out: &mut String)
        ensures
            final(out)@ == old(out)@ + foreground_params(self.0),
    {
        push_place(out, self.0, "39", "38;");
    }
}

/// A color as the underline's.
pub struct Underline(pub Color);

impl Underline {
    pub fn write(&self, out: &mut String)
        ensures
            final(out)@ == old(out)@ + underline_params(self.0),
    {
        push_place(out, self.0, "59", "58;");
    }
}

} // verus!
