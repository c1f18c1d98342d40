//! Foreground colours that stay readable on a given background.
use vstd::prelude::*;
use crate::graphics::ansi::Color;

verus! {

pub struct Palette;

/// The foreground for text on `bg`: white on the dark colours, black on
/// the light ones, the terminal's default otherwise.
pub open spec fn fg_spec(bg: Color) -> Color {
    match bg {
        Color::Black | Color::Red | Color::Blue | Color::Magenta | Color::Gray | Color::LightRed => Color::White,
        Color::Green | Color::Yellow | Color::Cyan | Color::DarkGray | Color::LightGreen
        | Color::LightYellow | Color::LightBlue | Color::LightMagenta | Color::LightCyan
        | Color::White => Color::Black,
        _ => Color::Reset,
    }
}

/// The colour that makes a highlighted part stand out from `fg` on `bg`.
pub open spec fn ascent_fg_spec(bg: Color, fg: Color) -> Color {
    match bg {
        Color::Reset => if fg == Color::Yellow {
            Color::Magenta
        } else {
            Color::Yellow
        },
        Color::Red | Color::LightRed => Color::Blue,
        Color::Green | Color::Yellow | Color::Blue | Color::Cyan | Color::LightGreen
        | Color::LightYellow | Color::LightBlue | Color::LightCyan | Color::White => Color::Magenta,
        _ => Color::Yellow,
    }
}

impl Palette {
    /// The foreground for text on `bg` (see `fg_spec`).
    pub fn fg(bg: Color) -> (r: Color)
        ensures
            r == fg_spec(bg),
    {
        match bg {
            Color::Black | Color::Red | Color::Blue | Color::Magenta | Color::Gray | Color::LightRed => Color::White,
            Color::Green | Color::Yellow | Color::Cyan | Color::DarkGray | Color::LightGreen
            | Color::LightYellow | Color::LightBlue | Color::LightMagenta | Color::LightCyan
            | Color::White => Color::Black,
            _ => Color::Reset,
        }
    }

    /// The colour of a highlighted part on `bg` next to `fg` (see
    /// `ascent_fg_spec`).
    pub fn ascent_fg(bg: Color, fg: Color) -> (r: Color)
        ensures
            r == ascent_fg_spec(bg, fg),
    {
        match bg {
            Color::Reset => if fg == Color::Yellow {
                Color::Magenta
            } else {
                Color::Yellow
            },
            Color::Red | Color::LightRed => Color::Blue,
            Color::Green | Color::Yellow | Color::Blue | Color::Cyan | Color::LightGreen
            | Color::LightYellow | Color::LightBlue | Color::LightCyan | Color::White => Color::Magenta,
            _ => Color::Yellow,
        }
    }
}

} // verus!
