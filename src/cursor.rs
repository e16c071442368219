//! Cursor commands.

use vstd::prelude::*;

use crate::ansi::{csi_text, decimal, push_char, push_csi_number, push_csi_str, push_decimal, Command};

verus! {

/// Moving, showing and shaping the cursor. Rows and columns count from 0.
#[derive(Clone, Copy, Debug, PartialEq, Eq, Structural)]
pub enum Action {
    Home,
    MoveTo { row: u16, column: u16 },
    MoveUp(u16),
    MoveDown(u16),
    MoveRight(u16),
    MoveLeft(u16),
    MoveToColumn(u16),
    MoveToRow(u16),
    MoveToPreviousLine(u16),
    MoveToNextLine(u16),
    GetPosition,
    SavePosition,
    RestorePosition,
    Hide,
    Show,
    DisableBlinking,
    EnableBlinking,
    SetCursorStyle(CursorStyle),
}

/// The shape of the cursor.
#[derive(Clone, Copy, Debug, PartialEq, Eq, Structural)]
pub enum CursorStyle {
    Default,
    BlinkingBlock,
    SteadyBlock,
    BlinkingUnderscore,
    SteadyUnderscore,
    BlinkingBar,
    SteadyBar,
}

pub open spec fn style_text(s: CursorStyle) -> Seq<char> {
    match s {
        CursorStyle::Default => csi_text() + "q"@,
        CursorStyle::BlinkingBlock => csi_text() + "1q"@,
        CursorStyle::SteadyBlock => csi_text() + "2q"@,
        CursorStyle::BlinkingUnderscore => csi_text() + "3q"@,
        CursorStyle::SteadyUnderscore => csi_text() + "4q"@,
        CursorStyle::BlinkingBar => csi_text() + "5q"@,
        CursorStyle::SteadyBar => csi_text() + "6q"@,
    }
}

/// `ESC [ n last` when `n` is positive; nothing for a move by zero.
pub open spec fn move_text(n: u16, last: char) -> Seq<char> {
    if n > 0 {
        csi_text() + decimal(n as nat) + seq![last]
    } else {
        Seq::empty()
    }
}

/// The text of a cursor command; the terminal counts rows and columns from 1.
pub open spec fn cursor_text(a: Action) -> Seq<char> {
    match a {
        Action::Home => csi_text() + "H"@,
        Action::MoveTo { row, column } => csi_text() + decimal(row as nat + 1) + seq![';'] + decimal(
            column as nat + 1,
        ) + seq!['H'],
        Action::MoveUp(n) => move_text(n, 'A'),
        Action::MoveDown(n) => move_text(n, 'B'),
        Action::MoveRight(n) => move_text(n, 'C'),
        Action::MoveLeft(n) => move_text(n, 'D'),
        Action::MoveToColumn(c) => csi_text() + decimal(c as nat + 1) + seq!['G'],
        Action::MoveToRow(r) => csi_text() + decimal(r as nat + 1) + seq!['d'],
        Action::MoveToPreviousLine(n) => move_text(n, 'F'),
        Action::MoveToNextLine(n) => move_text(n, 'E'),
        Action::GetPosition => csi_text() + "6n"@,
        Action::SavePosition => csi_text() + "s"@,
        Action::RestorePosition => csi_text() + "u"@,
        Action::Hide => csi_text() + "?25l"@,
        Action::Show => csi_text() + "?25h"@,
        Action::DisableBlinking => csi_text() + "?12l"@,
        Action::EnableBlinking => csi_text() + "?12h"@,
        Action::SetCursorStyle(s) => style_text(s),
    }
}

impl Command for CursorStyle {
    open spec fn ansi(&self) -> Seq<char> {
        style_text(*self)
    }

    fn write(&self, out: &mut String) {
        match *self {
            CursorStyle::Default => push_csi_str(out, "q"),
            CursorStyle::BlinkingBlock => push_csi_str(out, "1q"),
            CursorStyle::SteadyBlock => push_csi_str(out, "2q"),
            CursorStyle::BlinkingUnderscore => push_csi_str(out, "3q"),
            CursorStyle::SteadyUnderscore => push_csi_str(out, "4q"),
            CursorStyle::BlinkingBar => push_csi_str(out, "5q"),
            CursorStyle::SteadyBar => push_csi_str(out, "6q"),
        }
    }
}

fn push_move(out: &mut String, n: u16, last: char)
    ensures
        final(out)@ == old(out)@ + move_text(n, last),
{
    if n > 0 {
        push_csi_number(out, n as u32, last);
    } else {
        assert(out@ + Seq::<char>::empty() =~= out@);
    }
}

impl Command for Action {
    open spec fn ansi(&self) -> Seq<char> {
        cursor_text(*self)
    }

    fn write(&self, out: &mut String) {
        let ghost start = out@;
        match *self {
            Action::Home => push_csi_str(out, "H"),
            Action::MoveTo { row, column } => {
                push_csi_number(out, row as u32 + 1, ';');
                push_decimal(out, column as u32 + 1);
                push_char(out, 'H');
                assert((start + csi_text() + decimal(row as nat + 1) + seq![';'] + decimal(
                    column as nat + 1,
                )).push('H') =~= start + cursor_text(*self));
            },
            Action::MoveUp(n) => push_move(out, n, 'A'),
            Action::MoveDown(n) => push_move(out, n, 'B'),
            Action::MoveRight(n) => push_move(out, n, 'C'),
            Action::MoveLeft(n) => push_move(out, n, 'D'),
            Action::MoveToColumn(c) => push_csi_number(out, c as u32 + 1, 'G'),
            Action::MoveToRow(r) => push_csi_number(out, r as u32 + 1, 'd'),
            Action::MoveToPreviousLine(n) => push_move(out, n, 'F'),
            Action::MoveToNextLine(n) => push_move(out, n, 'E'),
            Action::GetPosition => push_csi_str(out, "6n"),
            Action::SavePosition => push_csi_str(out, "s"),
            Action::RestorePosition => push_csi_str(out, "u"),
            Action::Hide => push_csi_str(out, "?25l"),
            Action::Show => push_csi_str(out, "?25h"),
            Action::DisableBlinking => push_csi_str(out, "?12l"),
            Action::EnableBlinking => push_csi_str(out, "?12h"),
            Action::SetCursorStyle(s) => s.write(out),
        }
    }
}

} // verus!
