use vstd::prelude::*;
use colored::Colorize;

verus! {

/// The foreground colours that error reports use.
#[derive(Clone, Copy)]
pub enum Hue {
    Red,
    Blue,
    White,
}

/// The SGR parameter of a foreground colour.
pub open spec fn hue_code(h: Hue) -> Seq<char> {
    match h {
        Hue::Red => seq!['3', '1'],
        Hue::Blue => seq!['3', '4'],
        Hue::White => seq!['3', '7'],
    }
}

/// The escape sequence that resets all attributes.
pub open spec fn reset_sequence() -> Seq<char> {
    seq!['\x1b', '[', '0', 'm']
}

/// The escape sequence that selects a foreground colour.
pub open spec fn style_sequence(h: Hue) -> Seq<char> {
    seq!['\x1b', '['] + hue_code(h) + seq!['m']
}

/// `s` with `style` written again after each reset sequence in it, from left
/// to right, so that text nested in a coloured string keeps the colour.
pub open spec fn restyle_resets(s: Seq<char>, style: Seq<char>) -> Seq<char>
    decreases s.len(),
{
    if s.len() == 0 {
        seq![]
    } else if s.len() >= 4 && s.take(4) == reset_sequence() {
        reset_sequence() + style + restyle_resets(s.skip(4), style)
    } else {
        seq![s[0]] + restyle_resets(s.skip(1), style)
    }
}

/// `s` shown in colour `h` on an ANSI terminal.
pub open spec fn styled(h: Hue, s: Seq<char>) -> Seq<char> {
    style_sequence(h) + restyle_resets(s, style_sequence(h)) + reset_sequence()
}

/// `s` in colour `h` where `on`, else plain.
pub open spec fn painted(h: Hue, s: Seq<char>, on: bool) -> Seq<char> {
    if on {
        styled(h, s)
    } else {
        s
    }
}

/// Writes `text` in a foreground colour through the `colored` crate
/// (`Colorize::color`, then `Display` of the `ColoredString`).
///
/// The crate writes the text unchanged where colouring is off (by
/// `CLICOLOR`, `NO_COLOR`, `CLICOLOR_FORCE`, an override, or a standard
/// output that is no terminal), else `styled(hue, text)`; which of the two
/// comes back depends on that environment and is not stated.
#[verifier::external_body]
pub(crate) fn paint(text: &str, hue: Hue) -> (r: String)
    ensures
        r@ == text@ || r@ == styled(hue, text@),
{
    let color = match hue {
        Hue::Red => colored::Color::Red,
        Hue::Blue => colored::Color::Blue,
        Hue::White => colored::Color::White,
    };
    text.color(color).to_string()
}

} // verus!
