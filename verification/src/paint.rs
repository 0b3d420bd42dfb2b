//! Colour for the terminal: the escape sequences that mark a piece of text,
//! and the one call that decides whether a run is coloured at all.

use colored::Colorize;
use vstd::prelude::*;

verus! {

/// The colours that the output uses.
#[derive(Debug, Clone, Copy, PartialEq, Eq, Structural)]
pub enum Color {
    Green,
    Red,
    White,
    Yellow,
}

/// The character that starts an escape sequence.
pub open spec fn escape() -> char {
    '\x1b'
}

/// The two digits that select `color` as the foreground colour.
pub open spec fn color_code(color: Color) -> Seq<char> {
    match color {
        Color::Green => seq!['3', '2'],
        Color::Red => seq!['3', '1'],
        Color::White => seq!['3', '7'],
        Color::Yellow => seq!['3', '3'],
    }
}

/// `text` between the sequence that switches `color` on and the sequence that
/// resets the terminal.
pub open spec fn colored_text(color: Color, text: Seq<char>) -> Seq<char> {
    seq![escape(), '['] + color_code(color) + seq!['m'] + text + seq![escape(), '[', '0', 'm']
}

/// `s` is `text` painted in `color`: coloured, or left as it is where colour is
/// switched off.
pub open spec fn is_painted(s: Seq<char>, color: Color, text: Seq<char>) -> bool {
    s == text || s == colored_text(color, text)
}

/// `text` holds no escape character.
pub open spec fn plain(text: Seq<char>) -> bool {
    forall|i: int| 0 <= i < text.len() ==> text[i] != escape()
}

/// Calls `colored::Colorize::color` on `text` and formats the result with
/// `to_string`.
///
/// Whether colour is applied depends on the terminal and the environment, so
/// the contract only says that the result is one of two strings: `text`
/// itself, or `text` between the foreground sequence of the colour and the
/// reset sequence. The crate rewrites reset sequences inside the text it
/// colours; a text without an escape character holds none.
#[verifier::external_body]
pub(crate) fn paint(color: Color, text: &str) -> (r: String)
    requires
        plain(text@),
    ensures
        is_painted(r@, color, text@),
{
    let outside = match color {
        Color::Green => colored::Color::Green,
        Color::Red => colored::Color::Red,
        Color::White => colored::Color::White,
        Color::Yellow => colored::Color::Yellow,
    };
    text.color(outside).to_string()
}

} // verus!
