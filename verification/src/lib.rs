//! A library for controlling colours and formatting, such as red bold text
//! or blue underlined text, on ANSI terminals.
//!
//! A [`Style`] holds stylistic information: an optional foreground and
//! background [`Colour`] and eight independent character attributes (bold,
//! dimmed, italic, underline, blink, reverse, hidden, strikethrough).
//! Calling `paint` on a `Style` or a `Colour` pairs it with a piece of
//! text; rendering that pair produces the text surrounded by exactly the
//! SGR escape sequences a terminal needs to display it.  `Fixed` palette
//! indices and 24-bit `RGB` colours are emitted with their variable-width
//! decimal sub-codes.
//!
//! Successive fragments can be collected in an [`ANSIStrings`] sequence and
//! written out with the minimum number of escape codes: the style
//! [`Difference`] engine computes, for each pair of adjacent fragments, the
//! cheapest correct transition — nothing, an incremental code, or a full
//! reset followed by the next style's prefix.  Byte fragments with an
//! unknown encoding go through [`ANSIByteStrings`] the same way.
//!
//! Every rendering and diffing operation is specified against a
//! mathematical model of the emitted character sequences; the fixed wire
//! format (`ESC [`, semicolon-separated decimal sub-codes, `m`) is pinned
//! down by the spec functions in the [`ansi`] module.

pub mod ansi;
pub mod colour;
pub mod debug;
pub mod difference;
pub mod display;
pub mod style;
pub mod substring;

pub use ansi::Infix;
pub use ansi::Prefix;
pub use ansi::PrefixBuffer;
pub use ansi::Suffix;
pub use colour::Colour;
pub use colour::Colour as Color;
pub use difference::Difference;
pub use display::ANSIByteString;
pub use display::ANSIByteStrings;
pub use display::ANSIGenericString;
pub use display::ANSIGenericStrings;
pub use display::ANSIString;
pub use display::ANSIStrings;
pub use style::Style;
