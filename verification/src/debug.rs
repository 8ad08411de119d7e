//! Debug renderings of styles.
//!
//! Styles have a compact rendering that only shows the fields that are set
//! (`Style { fg(Red), bold }`), and a long field-by-field rendering in the
//! style of a pretty-printed struct.  Both are built and specified here,
//! character for character.

use vstd::prelude::*;

use crate::ansi::code_string;
use crate::ansi::dec_rep;
use crate::ansi::push_code;
use crate::ansi::views_of;
use crate::ansi::write_dec;
use crate::colour::Colour;
use crate::style::Style;

verus! {

/// A colour's debug rendering: the variant's name, with the payload of a
/// `Fixed` or `RGB` colour written in decimal.
pub open spec fn colour_debug(c: Colour) -> Seq<char> {
    match c {
        Colour::Black => "Black"@,
        Colour::Red => "Red"@,
        Colour::Green => "Green"@,
        Colour::Yellow => "Yellow"@,
        Colour::Blue => "Blue"@,
        Colour::Purple => "Purple"@,
        Colour::Cyan => "Cyan"@,
        Colour::White => "White"@,
        Colour::Fixed(n) => "Fixed("@ + dec_rep(n as int) + ")"@,
        Colour::RGB(r, g, b) => "RGB("@ + dec_rep(r as int) + ", "@ + dec_rep(g as int) + ", "@
            + dec_rep(b as int) + ")"@,
    }
}

/// The parts of a style's compact debug rendering: the foreground and
/// background colours when set, then the attribute names, alphabetically,
/// of the attributes that are switched on.
pub open spec fn debug_parts(s: Style) -> Seq<Seq<char>> {
    let parts = Seq::<Seq<char>>::empty();
    let parts = match s.foreground {
        Some(c) => parts.push("fg("@ + colour_debug(c) + ")"@),
        None => parts,
    };
    let parts = match s.background {
        Some(c) => parts.push("on("@ + colour_debug(c) + ")"@),
        None => parts,
    };
    let parts = if s.is_blink {
        parts.push("blink"@)
    } else {
        parts
    };
    let parts = if s.is_bold {
        parts.push("bold"@)
    } else {
        parts
    };
    let parts = if s.is_dimmed {
        parts.push("dimmed"@)
    } else {
        parts
    };
    let parts = if s.is_hidden {
        parts.push("hidden"@)
    } else {
        parts
    };
    let parts = if s.is_italic {
        parts.push("italic"@)
    } else {
        parts
    };
    let parts = if s.is_reverse {
        parts.push("reverse"@)
    } else {
        parts
    };
    let parts = if s.is_strikethrough {
        parts.push("strikethrough"@)
    } else {
        parts
    };
    if s.is_underline {
        parts.push("underline"@)
    } else {
        parts
    }
}

/// Parts joined by an arbitrary separator.
pub open spec fn join_with(parts: Seq<Seq<char>>, sep: Seq<char>) -> Seq<char>
    decreases parts.len(),
{
    if parts.len() == 0 {
        Seq::<char>::empty()
    } else if parts.len() == 1 {
        parts[0]
    } else {
        join_with(parts.drop_last(), sep) + sep + parts.last()
    }
}

/// A style's compact debug rendering: only the fields that are set appear.
pub open spec fn style_debug(s: Style) -> Seq<char> {
    if s == Style::plain() {
        "Style {}"@
    } else {
        "Style { "@ + join_with(debug_parts(s), ", "@) + " }"@
    }
}

/// Appending one more part to a non-empty list costs one separator.
proof fn lemma_join_with_push(parts: Seq<Seq<char>>, sep: Seq<char>, p: Seq<char>)
    requires
        parts.len() >= 1,
    ensures
        join_with(parts.push(p), sep) == join_with(parts, sep) + sep + p,
{
    assert(parts.push(p).drop_last() =~= parts);
}

/// A colour's debug rendering as a string.
fn colour_debug_string(c: Colour) -> (r: String)
    ensures
        r@ == colour_debug(c),
{
    match c {
        Colour::Black => code_string("Black"),
        Colour::Red => code_string("Red"),
        Colour::Green => code_string("Green"),
        Colour::Yellow => code_string("Yellow"),
        Colour::Blue => code_string("Blue"),
        Colour::Purple => code_string("Purple"),
        Colour::Cyan => code_string("Cyan"),
        Colour::White => code_string("White"),
        Colour::Fixed(n) => {
            let mut out = String::from_str("Fixed(");
            write_dec(&mut out, n);
            out.append(")");
            proof {
                assert(out@ =~= colour_debug(c));
            }
            out
        },
        Colour::RGB(r, g, b) => {
            let mut out = String::from_str("RGB(");
            write_dec(&mut out, r);
            out.append(", ");
            write_dec(&mut out, g);
            out.append(", ");
            write_dec(&mut out, b);
            out.append(")");
            proof {
                assert(out@ =~= colour_debug(c));
            }
            out
        },
    }
}

/// Joins rendered parts with the given separator.
fn join_strings(parts: &Vec<String>, sep: &str) -> (r: String)
    ensures
        r@ == join_with(views_of(parts@), sep@),
{
    let mut out = String::new();
    let mut i: usize = 0;
    while i < parts.len()
        invariant
            i <= parts@.len(),
            out@ == join_with(views_of(parts@).take(i as int), sep@),
        decreases parts@.len() - i,
    {
        if i > 0 {
            out.append(sep);
        }
        out.append(parts[i].as_str());
        proof {
            let m = views_of(parts@);
            assert(m.take(i + 1).drop_last() =~= m.take(i as int));
            assert(m.take(i + 1).last() == m[i as int]);
            if i == 0 {
                assert(out@ =~= m[0]);
                assert(join_with(m.take(1), sep@) == m.take(1)[0]);
                assert(out@ =~= join_with(m.take(i + 1), sep@));
            } else {
                lemma_join_with_push(m.take(i as int), sep@, m[i as int]);
                assert(m.take(i as int).push(m[i as int]) =~= m.take(i + 1));
                assert(out@ =~= join_with(m.take(i + 1), sep@));
            }
        }
        i += 1;
    }
    proof {
        assert(views_of(parts@).take(parts@.len() as int) =~= views_of(parts@));
    }
    out
}

/// A colour part of the compact rendering, `fg(...)` or `on(...)`.
fn colour_part_string(opener: &str, c: Colour) -> (r: String)
    ensures
        r@ == opener@ + colour_debug(c) + ")"@,
{
    let mut out = String::from_str(opener);
    let name = colour_debug_string(c);
    out.append(name.as_str());
    out.append(")");
    proof {
        assert(out@ =~= opener@ + colour_debug(c) + ")"@);
    }
    out
}

impl Style {
    /// The compact debug rendering of this style: only the fields that are
    /// set are included.
    pub fn debug_string(&self) -> (r: String)
        ensures
            r@ == style_debug(*self),
    {
        if self.is_plain() {
            return code_string("Style {}");
        }
        let mut parts: Vec<String> = Vec::new();
        let ghost mut chain = Seq::<Seq<char>>::empty();
        proof {
            assert(views_of(parts@) =~= chain);
        }
        if let Some(c) = self.foreground {
            push_code(&mut parts, colour_part_string("fg(", c));
            proof {
                chain = chain.push("fg("@ + colour_debug(c) + ")"@);
            }
        }
        if let Some(c) = self.background {
            push_code(&mut parts, colour_part_string("on(", c));
            proof {
                chain = chain.push("on("@ + colour_debug(c) + ")"@);
            }
        }
        if self.is_blink {
            push_code(&mut parts, code_string("blink"));
            proof {
                chain = chain.push("blink"@);
            }
        }
        if self.is_bold {
            push_code(&mut parts, code_string("bold"));
            proof {
                chain = chain.push("bold"@);
            }
        }
        if self.is_dimmed {
            push_code(&mut parts, code_string("dimmed"));
            proof {
                chain = chain.push("dimmed"@);
            }
        }
        if self.is_hidden {
            push_code(&mut parts, code_string("hidden"));
            proof {
                chain = chain.push("hidden"@);
            }
        }
        if self.is_italic {
            push_code(&mut parts, code_string("italic"));
            proof {
                chain = chain.push("italic"@);
            }
        }
        if self.is_reverse {
            push_code(&mut parts, code_string("reverse"));
            proof {
                chain = chain.push("reverse"@);
            }
        }
        if self.is_strikethrough {
            push_code(&mut parts, code_string("strikethrough"));
            proof {
                chain = chain.push("strikethrough"@);
            }
        }
        if self.is_underline {
            push_code(&mut parts, code_string("underline"));
            proof {
                chain = chain.push("underline"@);
            }
        }
        proof {
            assert(views_of(parts@) == chain);
            assert(chain == debug_parts(*self));
        }
        let mut out = String::from_str("Style { ");
        let joined = join_strings(&parts, ", ");
        out.append(joined.as_str());
        out.append(" }");
        proof {
            assert(out@ =~= style_debug(*self));
        }
        out
    }
}

// ---- the long, field-by-field rendering ----

/// `true` or `false`, spelled out.
pub open spec fn bool_chars(b: bool) -> Seq<char> {
    if b {
        "true"@
    } else {
        "false"@
    }
}

/// An optional colour in the long rendering: `None`, or `Some(` with the
/// colour indented on its own line.
pub open spec fn opt_colour_alt(oc: Option<Colour>) -> Seq<char> {
    match oc {
        None => "None"@,
        Some(c) => "Some(\n        "@ + colour_debug(c) + "\n    )"@,
    }
}

/// The colour fields of the long rendering.
pub open spec fn alt_colours(s: Style) -> Seq<char> {
    "Style {\n    foreground: "@ + opt_colour_alt(s.foreground) + ",\n    background: "@
        + opt_colour_alt(s.background)
}

/// One attribute field of the long rendering: its label, then its value.
pub open spec fn flag_field(label: Seq<char>, b: bool) -> Seq<char> {
    label + bool_chars(b)
}

/// The first four attribute fields of the long rendering.
pub open spec fn alt_flags_a(s: Style) -> Seq<char> {
    flag_field(",\n    blink: "@, s.is_blink) + flag_field(",\n    bold: "@, s.is_bold)
        + flag_field(",\n    dimmed: "@, s.is_dimmed) + flag_field(",\n    hidden: "@, s.is_hidden)
}

/// The last four attribute fields of the long rendering, and the closing
/// brace.
pub open spec fn alt_flags_b(s: Style) -> Seq<char> {
    flag_field(",\n    italic: "@, s.is_italic) + flag_field(",\n    reverse: "@, s.is_reverse)
        + flag_field(",\n    strikethrough: "@, s.is_strikethrough) + flag_field(
        ",\n    underline: "@,
        s.is_underline,
    ) + "\n}"@
}

/// A style's long debug rendering: every field on its own line, in the
/// fixed order foreground, background, then the attributes alphabetically.
pub open spec fn style_debug_alternate(s: Style) -> Seq<char> {
    alt_colours(s) + alt_flags_a(s) + alt_flags_b(s)
}

/// The spelled-out truth value.
fn bool_str(b: bool) -> (r: &'static str)
    ensures
        r@ == bool_chars(b),
{
    if b {
        "true"
    } else {
        "false"
    }
}

/// Appends an optional colour in the long rendering.
fn append_opt_colour_alt(out: &mut String, oc: Option<Colour>)
    ensures
        final(out)@ == old(out)@ + opt_colour_alt(oc),
{
    let ghost orig = out@;
    match oc {
        None => {
            out.append("None");
        },
        Some(c) => {
            out.append("Some(\n        ");
            let name = colour_debug_string(c);
            out.append(name.as_str());
            out.append("\n    )");
            proof {
                assert(out@ =~= orig + opt_colour_alt(oc));
            }
        },
    }
}

/// Appends the colour fields of the long rendering.
fn append_alt_colours(out: &mut String, s: &Style)
    ensures
        final(out)@ == old(out)@ + alt_colours(*s),
{
    let ghost orig = out@;
    out.append("Style {\n    foreground: ");
    append_opt_colour_alt(out, s.foreground);
    out.append(",\n    background: ");
    append_opt_colour_alt(out, s.background);
    proof {
        assert(out@ =~= orig + alt_colours(*s));
    }
}

/// Appends one attribute field of the long rendering.
fn append_flag(out: &mut String, label: &str, b: bool)
    ensures
        final(out)@ == old(out)@ + flag_field(label@, b),
{
    let ghost orig = out@;
    out.append(label);
    out.append(bool_str(b));
    proof {
        assert(out@ =~= orig + flag_field(label@, b));
    }
}

/// Appends the first four attribute fields of the long rendering.
fn append_alt_flags_a(out: &mut String, s: &Style)
    ensures
        final(out)@ == old(out)@ + alt_flags_a(*s),
{
    let ghost orig = out@;
    append_flag(out, ",\n    blink: ", s.is_blink);
    append_flag(out, ",\n    bold: ", s.is_bold);
    append_flag(out, ",\n    dimmed: ", s.is_dimmed);
    append_flag(out, ",\n    hidden: ", s.is_hidden);
    proof {
        assert(out@ =~= orig + alt_flags_a(*s));
    }
}

/// Appends the last four attribute fields and the closing brace.
fn append_alt_flags_b(out: &mut String, s: &Style)
    ensures
        final(out)@ == old(out)@ + alt_flags_b(*s),
{
    let ghost orig = out@;
    append_flag(out, ",\n    italic: ", s.is_italic);
    append_flag(out, ",\n    reverse: ", s.is_reverse);
    append_flag(out, ",\n    strikethrough: ", s.is_strikethrough);
    append_flag(out, ",\n    underline: ", s.is_underline);
    out.append("\n}");
    proof {
        assert(out@ =~= orig + alt_flags_b(*s));
    }
}

impl Style {
    /// The long debug rendering of this style: every field appears, one per
    /// line, whether or not it is set.
    pub fn debug_string_alternate(&self) -> (r: String)
        ensures
            r@ == style_debug_alternate(*self),
    {
        let mut out = String::new();
        append_alt_colours(&mut out, self);
        append_alt_flags_a(&mut out, self);
        append_alt_flags_b(&mut out, self);
        proof {
            assert(out@ =~= style_debug_alternate(*self));
        }
        out
    }
}

} // verus!
