//! Writing escape sequences: commands and the text they produce.

use vstd::prelude::*;
use vstd::string::StringExecFns;

verus! {

/// The control sequence introducer `ESC [`.
pub open spec fn csi_text() -> Seq<char> {
    seq!['\x1b', '[']
}

pub open spec fn digit_char(d: nat) -> char {
    ((d % 10) as u8 + 48u8) as char
}

/// The decimal digits of `n`, without leading zeros.
pub open spec fn decimal(n: nat) -> Seq<char>
    decreases n,
{
    if n < 10 {
        seq![digit_char(n)]
    } else {
        decimal(n / 10).push(digit_char(n % 10))
    }
}

/// Relies on String::push: the character is appended.
#[verifier::external_body]
pub(crate) fn push_char(out: &mut String, c: char)
    ensures
        final(out)@ == old(out)@.push(c),
{
    out.push(c)
}

pub(crate) fn push_str(out: &mut String, s: &str)
    ensures
        final(out)@ == old(out)@ + s@,
{
    out.append(s);
}

/// Appends the decimal digits of `n`.
pub fn push_decimal(out: &mut String, n: u32)
    ensures
        final(out)@ == old(out)@ + decimal(n as nat),
    decreases n,
{
    let ghost start = out@;
    if n >= 10 {
        push_decimal(out, n / 10);
    }
    push_char(out, ((n % 10) as u8 + 48) as char);
    proof {
        if n >= 10 {
            assert((start + decimal((n / 10) as nat)).push(digit_char((n % 10) as nat)) =~= start + decimal(n as nat));
        } else {
            assert(start.push(digit_char(n as nat)) =~= start + decimal(n as nat));
        }
    }
}

/// Appends `ESC [`.
pub(crate) fn push_csi(out: &mut String)
    ensures
        final(out)@ == old(out)@ + csi_text(),
{
    let ghost start = out@;
    push_char(out, '\x1b');
    push_char(out, '[');
    assert(start.push('\x1b').push('[') =~= start + csi_text());
}

/// Appends `ESC [`, the decimal digits of `n`, and `last`.
pub(crate) fn push_csi_number(out: &mut String, n: u32, last: char)
    ensures
        final(out)@ == old(out)@ + csi_text() + decimal(n as nat) + seq![last],
{
    let ghost start = out@;
    push_csi(out);
    push_decimal(out, n);
    push_char(out, last);
    assert((start + csi_text() + decimal(n as nat)).push(last) =~= start + csi_text() + decimal(n as nat) + seq![last]);
}

/// Appends `ESC [` and `s`.
pub(crate) fn push_csi_str(out: &mut String, s: &str)
    ensures
        final(out)@ == old(out)@ + csi_text() + s@,
{
    push_csi(out);
    push_str(out, s);
}

/// A command that a terminal obeys: it writes the escape sequence that asks for it.
pub trait Command {
    /// The text the command writes.
    spec fn ansi(&self) -> Seq<char>;

    fn write(&self, out: &mut String)
        ensures
            final(out)@ == old(out)@ + self.ansi(),
    ;
}

} // verus!
