//! The escape sequences that colour and weight text on a terminal, as
//! `termion` writes them.

use crate::text::decimal_text;
use termion::color;
use termion::style;
use vstd::prelude::*;

verus! {

/// A foreground colour.
#[derive(Clone, Copy, Debug, PartialEq, Eq)]
pub enum Paint {
    Red,
    Yellow,
    Green,
    Cyan,
    Magenta,
    /// A colour by its red, green and blue parts.
    Rgb(u8, u8, u8),
    /// The terminal's own foreground colour.
    Default,
}

/// The sequence that starts an escape sequence: the escape character and an
/// opening bracket.
pub open spec fn csi() -> Seq<char> {
    seq!['\x1b', '[']
}

/// The escape sequence that sets the foreground colour.
pub open spec fn foreground(paint: Paint) -> Seq<char> {
    match paint {
        Paint::Red => csi() + "38;5;1m"@,
        Paint::Yellow => csi() + "38;5;3m"@,
        Paint::Green => csi() + "38;5;2m"@,
        Paint::Cyan => csi() + "38;5;6m"@,
        Paint::Magenta => csi() + "38;5;5m"@,
        Paint::Rgb(r, g, b) => csi() + "38;2;"@ + decimal_text(r as nat) + ";"@ + decimal_text(
            g as nat,
        ) + ";"@ + decimal_text(b as nat) + "m"@,
        Paint::Default => csi() + "39m"@,
    }
}

/// The escape sequence that turns bold on.
pub open spec fn bold() -> Seq<char> {
    csi() + "1m"@
}

/// The escape sequence that resets colour and weight.
pub open spec fn reset() -> Seq<char> {
    csi() + "m"@
}

/// What `termion::color::Fg` displays for a colour: `ESC [ 38;5;N m` with the
/// colour's number for the named colours (red 1, green 2, yellow 3, magenta 5,
/// cyan 6), `ESC [ 38;2;R;G;B m` with the three parts in decimal for `Rgb`,
/// and `ESC [ 39 m` for the terminal's own colour.
#[verifier::external_body]
pub(crate) fn foreground_code(paint: Paint) -> (code: String)
    ensures
        code@ == foreground(paint),
{
    match paint {
        Paint::Red => color::Fg(color::Red).to_string(),
        Paint::Yellow => color::Fg(color::Yellow).to_string(),
        Paint::Green => color::Fg(color::Green).to_string(),
        Paint::Cyan => color::Fg(color::Cyan).to_string(),
        Paint::Magenta => color::Fg(color::Magenta).to_string(),
        Paint::Rgb(r, g, b) => color::Fg(color::Rgb(r, g, b)).to_string(),
        Paint::Default => color::Fg(color::Reset).to_string(),
    }
}

/// What `termion::style::Bold` displays: `ESC [ 1 m`.
#[verifier::external_body]
pub(crate) fn bold_code() -> (code: String)
    ensures
        code@ == bold(),
{
    style::Bold.to_string()
}

/// What `termion::style::Reset` displays: `ESC [ m`.
#[verifier::external_body]
pub(crate) fn reset_code() -> (code: String)
    ensures
        code@ == reset(),
{
    style::Reset.to_string()
}

} // verus!
