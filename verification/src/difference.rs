//! The style-difference engine: given a `current` and a `next` style,
//! compute the minimal transition that turns a terminal displaying
//! `current` into one displaying `next`.

use vstd::prelude::*;

use crate::ansi::prefix_seq;
use crate::style::Style;

verus! {

/// When printing out one coloured string followed by another, use one of
/// these rules to figure out which *extra* control codes need to be sent.
#[derive(Clone, Copy, Debug, PartialEq, Eq, Structural)]
pub enum Difference {
    /// Print out the control codes specified by this style to end up looking
    /// like the second string's styles.
    ExtraStyles(Style),
    /// Converting between these two is impossible, so just send a reset
    /// command and then the second string's styles.
    Reset,
    /// The before style is exactly the same as the after style, so no further
    /// control codes need to be printed.
    NoDifference,
}

/// True when no incremental SGR transition from `a` to `b` exists: some
/// attribute or colour that is present in `a` is absent in `b`, and standard
/// SGR semantics offer no code that switches a single property off.
pub open spec fn needs_reset(a: Style, b: Style) -> bool {
    ||| (a.is_bold && !b.is_bold)
    ||| (a.is_dimmed && !b.is_dimmed)
    ||| (a.is_italic && !b.is_italic)
    ||| (a.is_underline && !b.is_underline)
    ||| (a.is_blink && !b.is_blink)
    ||| (a.is_reverse && !b.is_reverse)
    ||| (a.is_hidden && !b.is_hidden)
    ||| (a.is_strikethrough && !b.is_strikethrough)
    ||| (a.foreground is Some && b.foreground is None)
    ||| (a.background is Some && b.background is None)
}

/// The synthetic style holding only the additions needed on top of `a` to
/// reach `b`: an attribute is set exactly where the two styles disagree
/// (which, absent a reset, only ever turns attributes on), and a colour is
/// set exactly where it has to change.
pub open spec fn extra_styles(a: Style, b: Style) -> Style {
    Style {
        foreground: if a.foreground != b.foreground {
            b.foreground
        } else {
            None
        },
        background: if a.background != b.background {
            b.background
        } else {
            None
        },
        is_bold: a.is_bold != b.is_bold,
        is_dimmed: a.is_dimmed != b.is_dimmed,
        is_italic: a.is_italic != b.is_italic,
        is_underline: a.is_underline != b.is_underline,
        is_blink: a.is_blink != b.is_blink,
        is_reverse: a.is_reverse != b.is_reverse,
        is_hidden: a.is_hidden != b.is_hidden,
        is_strikethrough: a.is_strikethrough != b.is_strikethrough,
    }
}

impl Style {
    /// The transition from `self` to `next`: nothing when they are equal, a
    /// forced reset when some property would have to be switched off, and
    /// otherwise the additional codes alone.
    pub open spec fn spec_difference(self, next: Style) -> Difference {
        if self == next {
            Difference::NoDifference
        } else if needs_reset(self, next) {
            Difference::Reset
        } else {
            Difference::ExtraStyles(extra_styles(self, next))
        }
    }

    /// Compute the 'style difference' required to turn an existing style into
    /// the given, second style.
    ///
    /// For example, to turn green text into green bold text, it's redundant
    /// to write a reset command then a second green+bold command, instead of
    /// just writing one bold command. This method sees that both styles
    /// use the foreground colour green, and reduces the transition to a
    /// single command.
    ///
    /// It is not always possible to turn one style into another: text could
    /// be made bold and underlined, but the bold property cannot be removed
    /// without also removing the underline property. In that case the entire
    /// set of styles must be reset and begun again, which the `Reset` result
    /// signals.
    pub fn difference(&self, next: &Style) -> (r: Difference)
        ensures
            r == self.spec_difference(*next),
    {
        if self == next {
            return Difference::NoDifference;
        }

        // Cannot un-bold, so must Reset.
        if self.is_bold && !next.is_bold {
            return Difference::Reset;
        }

        if self.is_dimmed && !next.is_dimmed {
            return Difference::Reset;
        }

        if self.is_italic && !next.is_italic {
            return Difference::Reset;
        }

        // Cannot un-underline, so must Reset.
        if self.is_underline && !next.is_underline {
            return Difference::Reset;
        }

        if self.is_blink && !next.is_blink {
            return Difference::Reset;
        }

        if self.is_reverse && !next.is_reverse {
            return Difference::Reset;
        }

        if self.is_hidden && !next.is_hidden {
            return Difference::Reset;
        }

        if self.is_strikethrough && !next.is_strikethrough {
            return Difference::Reset;
        }

        // Cannot go from foreground to no foreground, so must Reset.
        if self.foreground.is_some() && next.foreground.is_none() {
            return Difference::Reset;
        }

        // Cannot go from background to no background, so must Reset.
        if self.background.is_some() && next.background.is_none() {
            return Difference::Reset;
        }

        let mut extra = Style::new();

        if self.is_bold != next.is_bold {
            extra.is_bold = true;
        }

        if self.is_dimmed != next.is_dimmed {
            extra.is_dimmed = true;
        }

        if self.is_italic != next.is_italic {
            extra.is_italic = true;
        }

        if self.is_underline != next.is_underline {
            extra.is_underline = true;
        }

        if self.is_blink != next.is_blink {
            extra.is_blink = true;
        }

        if self.is_reverse != next.is_reverse {
            extra.is_reverse = true;
        }

        if self.is_hidden != next.is_hidden {
            extra.is_hidden = true;
        }

        if self.is_strikethrough != next.is_strikethrough {
            extra.is_strikethrough = true;
        }

        if self.foreground != next.foreground {
            extra.foreground = next.foreground;
        }

        if self.background != next.background {
            extra.background = next.background;
        }

        Difference::ExtraStyles(extra)
    }
}

/// Comparing any style with itself finds no difference at all.
pub proof fn lemma_difference_reflexive(s: Style)
    ensures
        s.spec_difference(s) == Difference::NoDifference,
{
}

/// A style with at least one attribute switched on can only return to the
/// plain style through a full reset.
pub proof fn lemma_reset_needed(s: Style)
    requires
        s.is_bold || s.is_dimmed || s.is_italic || s.is_underline || s.is_blink || s.is_reverse
            || s.is_hidden || s.is_strikethrough,
    ensures
        s.spec_difference(Style::plain()) == Difference::Reset,
{
}

/// Starting from the plain style, the extra codes needed to reach any other
/// style are exactly that style's own codes.
pub proof fn lemma_additive_difference(s: Style)
    requires
        s != Style::plain(),
    ensures
        Style::plain().spec_difference(s) == Difference::ExtraStyles(s),
        prefix_seq(Style::plain()) + prefix_seq(s) == prefix_seq(s),
{
    assert(extra_styles(Style::plain(), s) == s);
    assert(prefix_seq(Style::plain()) + prefix_seq(s) =~= prefix_seq(s));
}

} // verus!
