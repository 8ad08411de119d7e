//! The [`Colour`] model: eight named base colours, 8-bit palette indices and
//! 24-bit RGB triples, with builder shortcuts that lift a colour into a
//! [`Style`].

use vstd::prelude::*;

use crate::style::Style;

verus! {

/// A colour is one specific type of ANSI escape code, and can refer
/// to either the foreground or background colour.
///
/// These use the standard numeric sequences: the eight named colours carry
/// foreground codes `30`-`37` and background codes `40`-`47`; `Fixed` and
/// `RGB` use the extended `38;5;n` / `38;2;r;g;b` forms (`48;...` for
/// backgrounds).
#[derive(Clone, Copy, Debug, PartialEq, Eq, Structural)]
pub enum Colour {
    /// Colour #0 (foreground code `30`, background code `40`).
    Black,
    /// Colour #1 (foreground code `31`, background code `41`).
    Red,
    /// Colour #2 (foreground code `32`, background code `42`).
    Green,
    /// Colour #3 (foreground code `33`, background code `43`).
    Yellow,
    /// Colour #4 (foreground code `34`, background code `44`).
    Blue,
    /// Colour #5 (foreground code `35`, background code `45`).
    Purple,
    /// Colour #6 (foreground code `36`, background code `46`).
    Cyan,
    /// Colour #7 (foreground code `37`, background code `47`).
    White,
    /// A colour number from 0 to 255, for use in 256-colour terminal
    /// environments.
    Fixed(u8),
    /// A 24-bit RGB color, as specified by ISO-8613-3.
    RGB(u8, u8, u8),
}

impl Colour {
    /// Return a Style with the foreground colour set to this colour.
    pub fn normal(self) -> (s: Style)
        ensures
            s == (Style { foreground: Some(self), ..Style::plain() }),
    {
        Style { foreground: Some(self), ..Style::new() }
    }

    /// Returns a Style with the foreground set to this colour and the bold
    /// property set.
    pub fn bold(self) -> (s: Style)
        ensures
            s == (Style { foreground: Some(self), is_bold: true, ..Style::plain() }),
    {
        Style { foreground: Some(self), is_bold: true, ..Style::new() }
    }

    /// Returns a Style with the foreground set to this colour and the dimmed
    /// property set.
    pub fn dimmed(self) -> (s: Style)
        ensures
            s == (Style { foreground: Some(self), is_dimmed: true, ..Style::plain() }),
    {
        Style { foreground: Some(self), is_dimmed: true, ..Style::new() }
    }

    /// Returns a Style with the foreground set to this colour and the italic
    /// property set.
    pub fn italic(self) -> (s: Style)
        ensures
            s == (Style { foreground: Some(self), is_italic: true, ..Style::plain() }),
    {
        Style { foreground: Some(self), is_italic: true, ..Style::new() }
    }

    /// Returns a Style with the foreground set to this colour and the
    /// underline property set.
    pub fn underline(self) -> (s: Style)
        ensures
            s == (Style { foreground: Some(self), is_underline: true, ..Style::plain() }),
    {
        Style { foreground: Some(self), is_underline: true, ..Style::new() }
    }

    /// Returns a Style with the foreground set to this colour and the blink
    /// property set.
    pub fn blink(self) -> (s: Style)
        ensures
            s == (Style { foreground: Some(self), is_blink: true, ..Style::plain() }),
    {
        Style { foreground: Some(self), is_blink: true, ..Style::new() }
    }

    /// Returns a Style with the foreground set to this colour and the
    /// reverse property set.
    pub fn reverse(self) -> (s: Style)
        ensures
            s == (Style { foreground: Some(self), is_reverse: true, ..Style::plain() }),
    {
        Style { foreground: Some(self), is_reverse: true, ..Style::new() }
    }

    /// Returns a Style with the foreground set to this colour and the hidden
    /// property set.
    pub fn hidden(self) -> (s: Style)
        ensures
            s == (Style { foreground: Some(self), is_hidden: true, ..Style::plain() }),
    {
        Style { foreground: Some(self), is_hidden: true, ..Style::new() }
    }

    /// Returns a Style with the foreground set to this colour and the
    /// strikethrough property set.
    pub fn strikethrough(self) -> (s: Style)
        ensures
            s == (Style { foreground: Some(self), is_strikethrough: true, ..Style::plain() }),
    {
        Style { foreground: Some(self), is_strikethrough: true, ..Style::new() }
    }

    /// Returns a Style with the foreground set to this colour and the
    /// background colour property set.
    pub fn on(self, background: Colour) -> (s: Style)
        ensures
            s == (Style {
                foreground: Some(self),
                background: Some(background),
                ..Style::plain()
            }),
    {
        Style { foreground: Some(self), background: Some(background), ..Style::new() }
    }
}

} // verus!
