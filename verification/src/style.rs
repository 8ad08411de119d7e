//! The [`Style`] aggregate: an optional foreground and background colour and
//! eight independent boolean attribute flags.

use vstd::prelude::*;

use crate::colour::Colour;

verus! {

/// A style is a collection of properties that can format a string
/// using ANSI escape codes.
///
/// The all-default value ([`Style::plain`]) is the distinguished plain
/// style, the unique style for which no escape codes are ever emitted.
#[derive(Clone, Copy, Debug, PartialEq, Eq, Structural)]
pub struct Style {
    pub foreground: Option<Colour>,
    pub background: Option<Colour>,
    pub is_bold: bool,
    pub is_dimmed: bool,
    pub is_italic: bool,
    pub is_underline: bool,
    pub is_blink: bool,
    pub is_reverse: bool,
    pub is_hidden: bool,
    pub is_strikethrough: bool,
}

impl Style {
    /// The plain style: no colours and no attributes set.
    pub open spec fn plain() -> Style {
        Style {
            foreground: None,
            background: None,
            is_bold: false,
            is_dimmed: false,
            is_italic: false,
            is_underline: false,
            is_blink: false,
            is_reverse: false,
            is_hidden: false,
            is_strikethrough: false,
        }
    }

    /// Creates a new Style with no properties set.
    pub fn new() -> (s: Style)
        ensures
            s == Style::plain(),
    {
        Style {
            foreground: None,
            background: None,
            is_bold: false,
            is_dimmed: false,
            is_italic: false,
            is_underline: false,
            is_blink: false,
            is_reverse: false,
            is_hidden: false,
            is_strikethrough: false,
        }
    }

    /// Returns a Style with the bold property set.
    pub fn bold(&self) -> (s: Style)
        ensures
            s == (Style { is_bold: true, ..*self }),
    {
        Style { is_bold: true, ..*self }
    }

    /// Returns a Style with the dimmed property set.
    pub fn dimmed(&self) -> (s: Style)
        ensures
            s == (Style { is_dimmed: true, ..*self }),
    {
        Style { is_dimmed: true, ..*self }
    }

    /// Returns a Style with the italic property set.
    pub fn italic(&self) -> (s: Style)
        ensures
            s == (Style { is_italic: true, ..*self }),
    {
        Style { is_italic: true, ..*self }
    }

    /// Returns a Style with the underline property set.
    pub fn underline(&self) -> (s: Style)
        ensures
            s == (Style { is_underline: true, ..*self }),
    {
        Style { is_underline: true, ..*self }
    }

    /// Returns a Style with the blink property set.
    pub fn blink(&self) -> (s: Style)
        ensures
            s == (Style { is_blink: true, ..*self }),
    {
        Style { is_blink: true, ..*self }
    }

    /// Returns a Style with the reverse property set.
    pub fn reverse(&self) -> (s: Style)
        ensures
            s == (Style { is_reverse: true, ..*self }),
    {
        Style { is_reverse: true, ..*self }
    }

    /// Returns a Style with the hidden property set.
    pub fn hidden(&self) -> (s: Style)
        ensures
            s == (Style { is_hidden: true, ..*self }),
    {
        Style { is_hidden: true, ..*self }
    }

    /// Returns a Style with the strikethrough property set.
    pub fn strikethrough(&self) -> (s: Style)
        ensures
            s == (Style { is_strikethrough: true, ..*self }),
    {
        Style { is_strikethrough: true, ..*self }
    }

    /// Returns a Style with the foreground colour property set.
    pub fn fg(&self, foreground: Colour) -> (s: Style)
        ensures
            s == (Style { foreground: Some(foreground), ..*self }),
    {
        Style { foreground: Some(foreground), ..*self }
    }

    /// Returns a Style with the background colour property set.
    pub fn on(&self, background: Colour) -> (s: Style)
        ensures
            s == (Style { background: Some(background), ..*self }),
    {
        Style { background: Some(background), ..*self }
    }

    /// Return true if this `Style` has no actual styles, and can be written
    /// without any control characters.
    pub fn is_plain(self) -> (r: bool)
        ensures
            r == (self == Style::plain()),
    {
        self == Style::new()
    }
}

impl Default for Style {
    /// Returns the plain style.
    fn default() -> (s: Style)
        ensures
            s == Style::plain(),
    {
        Style::new()
    }
}

} // verus!
