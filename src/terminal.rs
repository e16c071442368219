//! Terminal-wide commands and the terminal handle.

use vstd::prelude::*;

use crate::ansi::{csi_text, decimal, push_char, push_csi_number, push_csi_str, push_decimal, Command};

verus! {

/// The size of a terminal, in character cells.
#[derive(Clone, Copy, Debug, PartialEq, Eq, Structural)]
pub struct Size {
    pub rows: u16,
    pub columns: u16,
}

/// A terminal: its byte channel, its size, and where its cursor stands.
pub struct Terminal<IO> {
    io: IO,
    size: Size,
    cursor: (u16, u16),
}

impl<IO> Terminal<IO> {
    /// A terminal of 25 rows and 80 columns.
    pub fn new(io: IO) -> (r: Self)
        ensures
            r.spec_size() == (Size { rows: 25, columns: 80 }),
            r.spec_cursor() == (0u16, 0u16),
    {
        Self::new_with_size(io, Size { rows: 25, columns: 80 })
    }

    pub fn new_with_size(io: IO, size: Size) -> (r: Self)
        ensures
            r.spec_size() == size,
            r.spec_cursor() == (0u16, 0u16),
    {
        Terminal { io, size, cursor: (0, 0) }
    }

    pub closed spec fn spec_size(&self) -> Size {
        self.size
    }

    pub closed spec fn spec_cursor(&self) -> (u16, u16) {
        self.cursor
    }

    pub fn size(&self) -> (r: Size)
        ensures
            r == self.spec_size(),
    {
        self.size
    }

    /// The cursor's row and column.
    pub fn cursor(&self) -> (r: (u16, u16))
        ensures
            r == self.spec_cursor(),
    {
        self.cursor
    }

}

/// Errors of the terminal.
#[derive(Clone, Copy, Debug, PartialEq, Eq, Structural)]
pub enum Error {
    Unknown,
}

/// Commands on the whole screen or line.
#[derive(Clone, Copy, Debug, PartialEq, Eq, Structural)]
pub enum Action {
    ClearCursorDown,
    ClearCursorUp,
    ClearScreen,
    ClearHistory,
    ClearLineFromCursor,
    ClearLineToCursor,
    ClearLine,
    ScrollUp(u16),
    ScrollDown(u16),
    /// Asks for `height` rows and `width` columns (`ESC [ 8 ; height ; width t`).
    SetSize { width: u16, height: u16 },
    DisableLineWrapping,
    EnableLineWrapping,
}

/// The text of a terminal command; scrolling by zero lines and a zero size write nothing.
pub open spec fn action_text(a: Action) -> Seq<char> {
    match a {
        Action::ClearCursorDown => csi_text() + "J"@,
        Action::ClearCursorUp => csi_text() + "1J"@,
        Action::ClearScreen => csi_text() + "2J"@,
        Action::ClearHistory => csi_text() + "3J"@,
        Action::ClearLineFromCursor => csi_text() + "K"@,
        Action::ClearLineToCursor => csi_text() + "1K"@,
        Action::ClearLine => csi_text() + "2K"@,
        Action::ScrollUp(n) => if n > 0 {
            csi_text() + decimal(n as nat) + seq!['S']
        } else {
            Seq::empty()
        },
        Action::ScrollDown(n) => if n > 0 {
            csi_text() + decimal(n as nat) + seq!['T']
        } else {
            Seq::empty()
        },
        Action::SetSize { width, height } => if width > 0 && height > 0 {
            csi_text() + "8;"@ + decimal(height as nat) + seq![';'] + decimal(width as nat) + seq!['t']
        } else {
            Seq::empty()
        },
        Action::DisableLineWrapping => csi_text() + "?7l"@,
        Action::EnableLineWrapping => csi_text() + "?7h"@,
    }
}

impl Command for Action {
    open spec fn ansi(&self) -> Seq<char> {
        action_text(*self)
    }

    fn write(&self, out: &mut String) {
        let ghost start = out@;
        match *self {
            Action::ClearCursorDown => push_csi_str(out, "J"),
            Action::ClearCursorUp => push_csi_str(out, "1J"),
            Action::ClearScreen => push_csi_str(out, "2J"),
            Action::ClearHistory => push_csi_str(out, "3J"),
            Action::ClearLineFromCursor => push_csi_str(out, "K"),
            Action::ClearLineToCursor => push_csi_str(out, "1K"),
            Action::ClearLine => push_csi_str(out, "2K"),
            Action::ScrollUp(n) => if n > 0 {
                push_csi_number(out, n as u32, 'S');
            } else {
                assert(start + Seq::<char>::empty() =~= start);
            },
            Action::ScrollDown(n) => if n > 0 {
                push_csi_number(out, n as u32, 'T');
            } else {
                assert(start + Seq::<char>::empty() =~= start);
            },
            Action::SetSize { width, height } => if width > 0 && height > 0 {
                push_csi_str(out, "8;");
                push_decimal(out, height as u32);
                push_char(out, ';');
                push_decimal(out, width as u32);
                push_char(out, 't');
                assert(((((start + csi_text() + "8;"@) + decimal(height as nat)).push(';') + decimal(
                    width as nat,
                )).push('t')) =~= start + action_text(*self));
            } else {
                assert(start + Seq::<char>::empty() =~= start);
            },
            Action::DisableLineWrapping => push_csi_str(out, "?7l"),
            Action::EnableLineWrapping => push_csi_str(out, "?7h"),
        }
        proof {
            assert(out@ =~= start + action_text(*self));
        }
    }
}

} // verus!
