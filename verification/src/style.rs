//! Terminal styling of text, done by the `colored` crate.
//!
//! Whether `colored` emits escape sequences at all is its own decision, taken
//! from the environment and from a process-wide override. Nothing is
//! therefore known of a styled text but that it is a string; unstyled text
//! does not pass through `colored` and comes out as it went in.

use colored::Colorize;
use vstd::prelude::*;

verus! {

/// A text with the style that `colored` is to give it.
#[verifier::external_type_specification]
#[verifier::external_body]
pub struct ExColoredString(colored::ColoredString);

/// The foreground colours in use.
#[derive(Clone, Copy, Debug, PartialEq, Eq, Structural)]
pub enum Hue {
    Red,
    Green,
    Yellow,
    Blue,
    Cyan,
    White,
    BrightBlack,
}

/// How a piece of output is to be styled.
#[derive(Clone, Copy, Debug, PartialEq, Eq, Structural)]
pub enum Tint {
    Plain,
    Bold,
    Colored(Hue),
    BoldColored(Hue),
}

/// `Colorize::color` on a string slice: the text with a foreground colour
/// attached. Nothing is claimed of the result.
#[verifier::external_body]
fn with_color(text: &str, hue: Hue) -> colored::ColoredString {
    text.color(
        match hue {
            Hue::Red => colored::Color::Red,
            Hue::Green => colored::Color::Green,
            Hue::Yellow => colored::Color::Yellow,
            Hue::Blue => colored::Color::Blue,
            Hue::Cyan => colored::Color::Cyan,
            Hue::White => colored::Color::White,
            Hue::BrightBlack => colored::Color::BrightBlack,
        },
    )
}

/// `ColoredString::from` on a string slice: the text with no style
/// attached yet. Nothing is claimed of the result.
#[verifier::external_body]
fn without_color(text: &str) -> colored::ColoredString {
    colored::ColoredString::from(text)
}

/// `Colorize::bold` on a styled text: the same text, bold as well. Nothing
/// is claimed of the result.
#[verifier::external_body]
fn emboldened(text: colored::ColoredString) -> colored::ColoredString {
    text.bold()
}

/// `ToString::to_string` on a styled text: the characters to print for it,
/// with or without escape sequences as `colored` sees fit at the time of
/// the call. Nothing is claimed of the result.
#[verifier::external_body]
fn rendered(text: &colored::ColoredString) -> String {
    text.to_string()
}

/// `colored::control::set_override(false)`: from now on, and for the whole
/// process, `colored` emits no escape sequences.
#[verifier::external_body]
pub(crate) fn disable_colors() {
    colored::control::set_override(false);
}

/// The characters to print for `text` in the given style.
///
/// Plain text is returned as it is. Of styled text only `colored` knows
/// what is printed: see [`crate::formatter::join`] for what is
/// made of it.
pub fn paint(text: &str, tint: Tint) -> (r: String)
    ensures
        tint is Plain ==> r@ == text@,
{
    match tint {
        Tint::Plain => text.to_owned(),
        Tint::Bold => rendered(&emboldened(without_color(text))),
        Tint::Colored(hue) => rendered(&with_color(text, hue)),
        Tint::BoldColored(hue) => rendered(&emboldened(with_color(text, hue))),
    }
}

} // verus!
