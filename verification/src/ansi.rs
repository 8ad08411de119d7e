//! Generation of ANSI SGR escape sequences.
//!
//! The spec functions in this module pin the wire format down exactly: an
//! escape sequence is the introducer `ESC [`, a semicolon-separated list of
//! decimal sub-codes, and the terminator `m`.  The sub-codes of one style
//! appear in a fixed order — the attributes bold(`1`), dimmed(`2`),
//! italic(`3`), underline(`4`), blink(`5`), reverse(`7`), hidden(`8`),
//! strikethrough(`9`), then the background colour code, then the foreground
//! colour code — so output is byte-for-byte reproducible.

use vstd::prelude::*;

use crate::colour::Colour;
use crate::difference::Difference;
use crate::style::Style;

verus! {

// ---- the wire-format model ----

/// The character of a single decimal digit.
pub open spec fn digit_char(d: int) -> char {
    if d == 0 {
        '0'
    } else if d == 1 {
        '1'
    } else if d == 2 {
        '2'
    } else if d == 3 {
        '3'
    } else if d == 4 {
        '4'
    } else if d == 5 {
        '5'
    } else if d == 6 {
        '6'
    } else if d == 7 {
        '7'
    } else if d == 8 {
        '8'
    } else {
        '9'
    }
}

/// The shortest decimal representation of an 8-bit value: one to three
/// digits, no leading zeros.
pub open spec fn dec_rep(n: int) -> Seq<char> {
    if n < 10 {
        seq![digit_char(n)]
    } else if n < 100 {
        seq![digit_char(n / 10), digit_char(n % 10)]
    } else {
        seq![digit_char(n / 100), digit_char((n / 10) % 10), digit_char(n % 10)]
    }
}

/// The numeric sub-code a colour contributes in foreground position:
/// `30`-`37` for the named colours, `38;5;n` for a palette index and
/// `38;2;r;g;b` for a 24-bit colour.
pub open spec fn fg_code(c: Colour) -> Seq<char> {
    match c {
        Colour::Black => seq!['3', '0'],
        Colour::Red => seq!['3', '1'],
        Colour::Green => seq!['3', '2'],
        Colour::Yellow => seq!['3', '3'],
        Colour::Blue => seq!['3', '4'],
        Colour::Purple => seq!['3', '5'],
        Colour::Cyan => seq!['3', '6'],
        Colour::White => seq!['3', '7'],
        Colour::Fixed(n) => seq!['3', '8', ';', '5', ';'] + dec_rep(n as int),
        Colour::RGB(r, g, b) => seq!['3', '8', ';', '2', ';'] + dec_rep(r as int) + seq![';']
            + dec_rep(g as int) + seq![';'] + dec_rep(b as int),
    }
}

/// The numeric sub-code a colour contributes in background position:
/// `40`-`47`, `48;5;n` or `48;2;r;g;b`.
pub open spec fn bg_code(c: Colour) -> Seq<char> {
    match c {
        Colour::Black => seq!['4', '0'],
        Colour::Red => seq!['4', '1'],
        Colour::Green => seq!['4', '2'],
        Colour::Yellow => seq!['4', '3'],
        Colour::Blue => seq!['4', '4'],
        Colour::Purple => seq!['4', '5'],
        Colour::Cyan => seq!['4', '6'],
        Colour::White => seq!['4', '7'],
        Colour::Fixed(n) => seq!['4', '8', ';', '5', ';'] + dec_rep(n as int),
        Colour::RGB(r, g, b) => seq!['4', '8', ';', '2', ';'] + dec_rep(r as int) + seq![';']
            + dec_rep(g as int) + seq![';'] + dec_rep(b as int),
    }
}

/// The ordered list of sub-codes one escape sequence carries for a style:
/// the reset code when asked for, then each attribute that is set, then the
/// background and finally the foreground colour code.
pub open spec fn sgr_parts(s: Style, with_reset: bool) -> Seq<Seq<char>> {
    let parts = Seq::<Seq<char>>::empty();
    let parts = if with_reset {
        parts.push(seq!['0'])
    } else {
        parts
    };
    let parts = if s.is_bold {
        parts.push(seq!['1'])
    } else {
        parts
    };
    let parts = if s.is_dimmed {
        parts.push(seq!['2'])
    } else {
        parts
    };
    let parts = if s.is_italic {
        parts.push(seq!['3'])
    } else {
        parts
    };
    let parts = if s.is_underline {
        parts.push(seq!['4'])
    } else {
        parts
    };
    let parts = if s.is_blink {
        parts.push(seq!['5'])
    } else {
        parts
    };
    let parts = if s.is_reverse {
        parts.push(seq!['7'])
    } else {
        parts
    };
    let parts = if s.is_hidden {
        parts.push(seq!['8'])
    } else {
        parts
    };
    let parts = if s.is_strikethrough {
        parts.push(seq!['9'])
    } else {
        parts
    };
    let parts = match s.background {
        Some(bg) => parts.push(bg_code(bg)),
        None => parts,
    };
    match s.foreground {
        Some(fg) => parts.push(fg_code(fg)),
        None => parts,
    }
}

/// Sub-codes joined by semicolons.
pub open spec fn join_parts(parts: Seq<Seq<char>>) -> Seq<char>
    decreases parts.len(),
{
    if parts.len() == 0 {
        Seq::empty()
    } else if parts.len() == 1 {
        parts[0]
    } else {
        join_parts(parts.drop_last()) + seq![';'] + parts.last()
    }
}

/// A complete escape sequence: the `ESC [` introducer, the joined sub-codes,
/// and the `m` terminator.
pub open spec fn escape(parts: Seq<Seq<char>>) -> Seq<char> {
    seq!['\u{1b}', '['] + join_parts(parts) + seq!['m']
}

/// The reset sequence `ESC [ 0 m`, exactly four characters.
pub open spec fn reset_seq() -> Seq<char> {
    seq!['\u{1b}', '[', '0', 'm']
}

/// The characters written before a styled piece of text: empty for the
/// plain style, otherwise one escape sequence carrying the style's codes.
pub open spec fn prefix_seq(s: Style) -> Seq<char> {
    if s == Style::plain() {
        Seq::empty()
    } else {
        escape(sgr_parts(s, false))
    }
}

/// The prefix with the reset sub-code forced in front; for the plain style
/// this is exactly the reset sequence.
pub open spec fn prefix_reset_seq(s: Style) -> Seq<char> {
    escape(sgr_parts(s, true))
}

/// The characters written after a styled piece of text: nothing for the
/// plain style, otherwise the reset sequence.
pub open spec fn suffix_seq(s: Style) -> Seq<char> {
    if s == Style::plain() {
        Seq::empty()
    } else {
        reset_seq()
    }
}

/// The characters that switch a terminal from style `a` to style `b`, as
/// the difference engine dictates: nothing, the extra codes alone, or one
/// merged reset-and-restyle sequence.
pub open spec fn infix_seq(a: Style, b: Style) -> Seq<char> {
    match a.spec_difference(b) {
        Difference::ExtraStyles(extra) => prefix_seq(extra),
        Difference::Reset => prefix_reset_seq(b),
        Difference::NoDifference => Seq::empty(),
    }
}

/// Appending one more sub-code to a non-empty list costs one semicolon.
proof fn lemma_join_push(parts: Seq<Seq<char>>, p: Seq<char>)
    requires
        parts.len() >= 1,
    ensures
        join_parts(parts.push(p)) == join_parts(parts) + seq![';'] + p,
{
    assert(parts.push(p).drop_last() =~= parts);
}

// ---- the emitters ----

/// The string of a single decimal digit.
fn digit_str(d: u8) -> (r: &'static str)
    requires
        d < 10,
    ensures
        r@ == seq![digit_char(d as int)],
{
    proof {
        reveal_strlit("0");
        reveal_strlit("1");
        reveal_strlit("2");
        reveal_strlit("3");
        reveal_strlit("4");
        reveal_strlit("5");
        reveal_strlit("6");
        reveal_strlit("7");
        reveal_strlit("8");
        reveal_strlit("9");
    }
    match d {
        0 => {
            proof {
                assert("0"@ =~= seq![digit_char(0)]);
            }
            "0"
        },
        1 => {
            proof {
                assert("1"@ =~= seq![digit_char(1)]);
            }
            "1"
        },
        2 => {
            proof {
                assert("2"@ =~= seq![digit_char(2)]);
            }
            "2"
        },
        3 => {
            proof {
                assert("3"@ =~= seq![digit_char(3)]);
            }
            "3"
        },
        4 => {
            proof {
                assert("4"@ =~= seq![digit_char(4)]);
            }
            "4"
        },
        5 => {
            proof {
                assert("5"@ =~= seq![digit_char(5)]);
            }
            "5"
        },
        6 => {
            proof {
                assert("6"@ =~= seq![digit_char(6)]);
            }
            "6"
        },
        7 => {
            proof {
                assert("7"@ =~= seq![digit_char(7)]);
            }
            "7"
        },
        8 => {
            proof {
                assert("8"@ =~= seq![digit_char(8)]);
            }
            "8"
        },
        _ => {
            proof {
                assert("9"@ =~= seq![digit_char(9)]);
            }
            "9"
        },
    }
}

/// Appends the decimal representation of `n` to `out`.
pub(crate) fn write_dec(out: &mut String, n: u8)
    ensures
        final(out)@ == old(out)@ + dec_rep(n as int),
{
    let ghost orig = out@;
    if n >= 100 {
        out.append(digit_str(n / 100));
    }
    if n >= 10 {
        out.append(digit_str((n / 10) % 10));
    }
    out.append(digit_str(n % 10));
    proof {
        if n < 10 {
            assert(n % 10 == n);
            assert(out@ =~= orig + dec_rep(n as int));
        } else if n < 100 {
            assert(n / 10 < 10);
            assert((n / 10) % 10 == n / 10);
            assert(out@ =~= orig + dec_rep(n as int));
        } else {
            assert(n / 100 < 10);
            assert(out@ =~= orig + dec_rep(n as int));
        }
    }
}

/// Appends a colour's foreground sub-code to `out`.
fn write_fg_code(out: &mut String, c: Colour)
    ensures
        final(out)@ == old(out)@ + fg_code(c),
{
    let ghost orig = out@;
    proof {
        reveal_strlit("30");
        reveal_strlit("31");
        reveal_strlit("32");
        reveal_strlit("33");
        reveal_strlit("34");
        reveal_strlit("35");
        reveal_strlit("36");
        reveal_strlit("37");
        reveal_strlit("38;5;");
        reveal_strlit("38;2;");
        reveal_strlit(";");
    }
    match c {
        Colour::Black => {
            out.append("30");
            proof {
                assert(out@ =~= orig + fg_code(c));
            }
        },
        Colour::Red => {
            out.append("31");
            proof {
                assert(out@ =~= orig + fg_code(c));
            }
        },
        Colour::Green => {
            out.append("32");
            proof {
                assert(out@ =~= orig + fg_code(c));
            }
        },
        Colour::Yellow => {
            out.append("33");
            proof {
                assert(out@ =~= orig + fg_code(c));
            }
        },
        Colour::Blue => {
            out.append("34");
            proof {
                assert(out@ =~= orig + fg_code(c));
            }
        },
        Colour::Purple => {
            out.append("35");
            proof {
                assert(out@ =~= orig + fg_code(c));
            }
        },
        Colour::Cyan => {
            out.append("36");
            proof {
                assert(out@ =~= orig + fg_code(c));
            }
        },
        Colour::White => {
            out.append("37");
            proof {
                assert(out@ =~= orig + fg_code(c));
            }
        },
        Colour::Fixed(n) => {
            out.append("38;5;");
            write_dec(out, n);
            proof {
                assert("38;5;"@ =~= seq!['3', '8', ';', '5', ';']);
                assert(out@ =~= orig + fg_code(c));
            }
        },
        Colour::RGB(r, g, b) => {
            out.append("38;2;");
            write_dec(out, r);
            out.append(";");
            write_dec(out, g);
            out.append(";");
            write_dec(out, b);
            proof {
                assert("38;2;"@ =~= seq!['3', '8', ';', '2', ';']);
                assert(";"@ =~= seq![';']);
                assert(out@ =~= orig + fg_code(c));
            }
        },
    }
}

/// Appends a colour's background sub-code to `out`.
fn write_bg_code(out: &mut String, c: Colour)
    ensures
        final(out)@ == old(out)@ + bg_code(c),
{
    let ghost orig = out@;
    proof {
        reveal_strlit("40");
        reveal_strlit("41");
        reveal_strlit("42");
        reveal_strlit("43");
        reveal_strlit("44");
        reveal_strlit("45");
        reveal_strlit("46");
        reveal_strlit("47");
        reveal_strlit("48;5;");
        reveal_strlit("48;2;");
        reveal_strlit(";");
    }
    match c {
        Colour::Black => {
            out.append("40");
            proof {
                assert(out@ =~= orig + bg_code(c));
            }
        },
        Colour::Red => {
            out.append("41");
            proof {
                assert(out@ =~= orig + bg_code(c));
            }
        },
        Colour::Green => {
            out.append("42");
            proof {
                assert(out@ =~= orig + bg_code(c));
            }
        },
        Colour::Yellow => {
            out.append("43");
            proof {
                assert(out@ =~= orig + bg_code(c));
            }
        },
        Colour::Blue => {
            out.append("44");
            proof {
                assert(out@ =~= orig + bg_code(c));
            }
        },
        Colour::Purple => {
            out.append("45");
            proof {
                assert(out@ =~= orig + bg_code(c));
            }
        },
        Colour::Cyan => {
            out.append("46");
            proof {
                assert(out@ =~= orig + bg_code(c));
            }
        },
        Colour::White => {
            out.append("47");
            proof {
                assert(out@ =~= orig + bg_code(c));
            }
        },
        Colour::Fixed(n) => {
            out.append("48;5;");
            write_dec(out, n);
            proof {
                assert("48;5;"@ =~= seq!['4', '8', ';', '5', ';']);
                assert(out@ =~= orig + bg_code(c));
            }
        },
        Colour::RGB(r, g, b) => {
            out.append("48;2;");
            write_dec(out, r);
            out.append(";");
            write_dec(out, g);
            out.append(";");
            write_dec(out, b);
            proof {
                assert("48;2;"@ =~= seq!['4', '8', ';', '2', ';']);
                assert(";"@ =~= seq![';']);
                assert(out@ =~= orig + bg_code(c));
            }
        },
    }
}

/// The views of a list of sub-code strings.
pub open spec fn views_of(parts: Seq<String>) -> Seq<Seq<char>> {
    parts.map_values(|p: String| p@)
}

/// A heap copy of one fixed sub-code string.
pub(crate) fn code_string(code: &str) -> (r: String)
    ensures
        r@ == code@,
{
    String::from_str(code)
}

/// A colour's foreground sub-code as its own string.
fn fg_code_string(c: Colour) -> (r: String)
    ensures
        r@ == fg_code(c),
{
    let mut out = String::new();
    write_fg_code(&mut out, c);
    proof {
        assert(Seq::<char>::empty() + fg_code(c) =~= fg_code(c));
    }
    out
}

/// A colour's background sub-code as its own string.
fn bg_code_string(c: Colour) -> (r: String)
    ensures
        r@ == bg_code(c),
{
    let mut out = String::new();
    write_bg_code(&mut out, c);
    proof {
        assert(Seq::<char>::empty() + bg_code(c) =~= bg_code(c));
    }
    out
}

/// Pushes one sub-code string, tracking the list of views.
pub(crate) fn push_code(parts: &mut Vec<String>, code: String)
    ensures
        views_of(final(parts)@) == views_of(old(parts)@).push(code@),
{
    let ghost c = code@;
    parts.push(code);
    proof {
        assert(views_of(parts@) =~= views_of(old(parts)@).push(c));
    }
}

/// The style's sub-code strings, in emission order.
fn sgr_code_strings(style: &Style, with_reset: bool) -> (parts: Vec<String>)
    ensures
        views_of(parts@) == sgr_parts(*style, with_reset),
{
    let mut parts: Vec<String> = Vec::new();
    let ghost mut chain = Seq::<Seq<char>>::empty();
    proof {
        assert(views_of(parts@) =~= chain);
    }
    if with_reset {
        push_code(&mut parts, code_string("0"));
        proof {
            reveal_strlit("0");
            assert("0"@ =~= seq!['0']);
            chain = chain.push(seq!['0']);
        }
    }
    if style.is_bold {
        push_code(&mut parts, code_string("1"));
        proof {
            reveal_strlit("1");
            assert("1"@ =~= seq!['1']);
            chain = chain.push(seq!['1']);
        }
    }
    if style.is_dimmed {
        push_code(&mut parts, code_string("2"));
        proof {
            reveal_strlit("2");
            assert("2"@ =~= seq!['2']);
            chain = chain.push(seq!['2']);
        }
    }
    if style.is_italic {
        push_code(&mut parts, code_string("3"));
        proof {
            reveal_strlit("3");
            assert("3"@ =~= seq!['3']);
            chain = chain.push(seq!['3']);
        }
    }
    if style.is_underline {
        push_code(&mut parts, code_string("4"));
        proof {
            reveal_strlit("4");
            assert("4"@ =~= seq!['4']);
            chain = chain.push(seq!['4']);
        }
    }
    if style.is_blink {
        push_code(&mut parts, code_string("5"));
        proof {
            reveal_strlit("5");
            assert("5"@ =~= seq!['5']);
            chain = chain.push(seq!['5']);
        }
    }
    if style.is_reverse {
        push_code(&mut parts, code_string("7"));
        proof {
            reveal_strlit("7");
            assert("7"@ =~= seq!['7']);
            chain = chain.push(seq!['7']);
        }
    }
    if style.is_hidden {
        push_code(&mut parts, code_string("8"));
        proof {
            reveal_strlit("8");
            assert("8"@ =~= seq!['8']);
            chain = chain.push(seq!['8']);
        }
    }
    if style.is_strikethrough {
        push_code(&mut parts, code_string("9"));
        proof {
            reveal_strlit("9");
            assert("9"@ =~= seq!['9']);
            chain = chain.push(seq!['9']);
        }
    }
    if let Some(bg) = style.background {
        push_code(&mut parts, bg_code_string(bg));
        proof {
            chain = chain.push(bg_code(bg));
        }
    }
    if let Some(fg) = style.foreground {
        push_code(&mut parts, fg_code_string(fg));
        proof {
            chain = chain.push(fg_code(fg));
        }
    }
    proof {
        assert(views_of(parts@) == chain);
        assert(chain == sgr_parts(*style, with_reset));
    }
    parts
}

/// Joins sub-code strings with semicolon separators.
fn join_code_strings(parts: &Vec<String>) -> (r: String)
    ensures
        r@ == join_parts(views_of(parts@)),
{
    let mut out = String::new();
    let mut i: usize = 0;
    while i < parts.len()
        invariant
            i <= parts@.len(),
            out@ == join_parts(views_of(parts@).take(i as int)),
        decreases parts@.len() - i,
    {
        if i > 0 {
            out.append(";");
        }
        out.append(parts[i].as_str());
        proof {
            reveal_strlit(";");
            assert(";"@ =~= seq![';']);
            let m = views_of(parts@);
            assert(m.take(i + 1).drop_last() =~= m.take(i as int));
            assert(m.take(i + 1).last() == m[i as int]);
            if i == 0 {
                assert(out@ =~= m[0]);
                assert(join_parts(m.take(1)) == m.take(1)[0]);
                assert(out@ =~= join_parts(m.take(i + 1)));
            } else {
                lemma_join_push(m.take(i as int), m[i as int]);
                assert(m.take(i as int).push(m[i as int]) =~= m.take(i + 1));
                assert(out@ =~= join_parts(m.take(i + 1)));
            }
        }
        i += 1;
    }
    proof {
        assert(views_of(parts@).take(parts@.len() as int) =~= views_of(parts@));
    }
    out
}

/// Appends one complete escape sequence carrying the style's sub-codes,
/// optionally led by the reset code.
fn write_sgr(out: &mut String, style: &Style, with_reset: bool)
    ensures
        final(out)@ == old(out)@ + escape(sgr_parts(*style, with_reset)),
{
    let ghost orig = out@;
    let parts = sgr_code_strings(style, with_reset);
    let joined = join_code_strings(&parts);
    out.append("\u{1b}[");
    out.append(joined.as_str());
    out.append("m");
    proof {
        reveal_strlit("\u{1b}[");
        reveal_strlit("m");
        assert("\u{1b}["@ =~= seq!['\u{1b}', '[']);
        assert("m"@ =~= seq!['m']);
        assert(out@ =~= orig + escape(sgr_parts(*style, with_reset)));
    }
}

/// Appends the style's prefix to `out`: nothing when the style is plain.
pub(crate) fn write_prefix(out: &mut String, style: &Style)
    ensures
        final(out)@ == old(out)@ + prefix_seq(*style),
{
    let ghost orig = out@;
    if !style.is_plain() {
        write_sgr(out, style, false);
    } else {
        proof {
            assert(out@ =~= orig + prefix_seq(*style));
        }
    }
}

/// Appends the style's prefix with a leading reset sub-code to `out`.
pub(crate) fn write_prefix_with_reset(out: &mut String, style: &Style)
    ensures
        final(out)@ == old(out)@ + prefix_reset_seq(*style),
{
    write_sgr(out, style, true);
}

/// The code to send to reset all styles and return to `Style::default()`.
pub fn reset_code() -> (r: &'static str)
    ensures
        r@ == reset_seq(),
{
    proof {
        reveal_strlit("\u{1b}[0m");
        assert("\u{1b}[0m"@ =~= reset_seq());
    }
    "\u{1b}[0m"
}

/// Appends the style's suffix to `out`: nothing when the style is plain,
/// the reset sequence otherwise.
pub(crate) fn write_suffix(out: &mut String, style: &Style)
    ensures
        final(out)@ == old(out)@ + suffix_seq(*style),
{
    let ghost orig = out@;
    if !style.is_plain() {
        out.append(reset_code());
    } else {
        proof {
            assert(out@ =~= orig + suffix_seq(*style));
        }
    }
}

// ---- prefix, infix and suffix views ----

/// Like `ANSIString`, but renders only the style prefix.
#[derive(Clone, Copy, Debug)]
pub struct Prefix(pub Style);

/// Like `ANSIString`, but renders only the difference between two styles.
#[derive(Clone, Copy, Debug)]
pub struct Infix(pub Style, pub Style);

/// Like `ANSIString`, but renders only the style suffix.
#[derive(Clone, Copy, Debug)]
pub struct Suffix(pub Style);

impl Style {
    /// The prefix for this style: the characters that tell the terminal to
    /// use a different colour or font style.
    pub fn prefix(self) -> (r: Prefix)
        ensures
            r == Prefix(self),
    {
        Prefix(self)
    }

    /// The infix between this style and `next`: the characters that tell the
    /// terminal to change the style to `next`, possibly a reset followed by
    /// the next style's codes.
    pub fn infix(self, next: Style) -> (r: Infix)
        ensures
            r == Infix(self, next),
    {
        Infix(self, next)
    }

    /// The suffix for this style: the characters that tell the terminal to
    /// reset back to its normal colour and font style.
    pub fn suffix(self) -> (r: Suffix)
        ensures
            r == Suffix(self),
    {
        Suffix(self)
    }
}

impl Colour {
    /// The prefix for this colour as a `Style`.
    pub fn prefix(self) -> (r: Prefix)
        ensures
            r == Prefix(Style { foreground: Some(self), ..Style::plain() }),
    {
        Prefix(self.normal())
    }

    /// The infix between this colour and `next` colour: the characters that
    /// tell the terminal to use the `next` colour, or nothing if the two
    /// colours are equal.
    pub fn infix(self, next: Colour) -> (r: Infix)
        ensures
            r == Infix(
                Style { foreground: Some(self), ..Style::plain() },
                Style { foreground: Some(next), ..Style::plain() },
            ),
    {
        Infix(self.normal(), next.normal())
    }

    /// The suffix for this colour as a `Style`.
    pub fn suffix(self) -> (r: Suffix)
        ensures
            r == Suffix(Style { foreground: Some(self), ..Style::plain() }),
    {
        Suffix(self.normal())
    }
}

impl Prefix {
    /// The rendered prefix characters.
    pub fn render(&self) -> (r: String)
        ensures
            r@ == prefix_seq(self.0),
    {
        let mut out = String::new();
        write_prefix(&mut out, &self.0);
        proof {
            assert(Seq::<char>::empty() + prefix_seq(self.0) =~= prefix_seq(self.0));
        }
        out
    }
}

impl Infix {
    /// The rendered transition characters, exactly as the difference engine
    /// dictates: nothing, the extra codes alone, or one merged
    /// reset-and-restyle sequence.
    pub fn render(&self) -> (r: String)
        ensures
            r@ == infix_seq(self.0, self.1),
    {
        let mut out = String::new();
        match self.0.difference(&self.1) {
            Difference::ExtraStyles(extra) => {
                write_prefix(&mut out, &extra);
            },
            Difference::Reset => {
                write_prefix_with_reset(&mut out, &self.1);
            },
            Difference::NoDifference => {},
        }
        proof {
            assert(Seq::<char>::empty() + infix_seq(self.0, self.1) =~= infix_seq(self.0, self.1));
            assert(out@ =~= infix_seq(self.0, self.1));
        }
        out
    }
}

impl Suffix {
    /// The rendered suffix characters.
    pub fn render(&self) -> (r: String)
        ensures
            r@ == suffix_seq(self.0),
    {
        let mut out = String::new();
        write_suffix(&mut out, &self.0);
        proof {
            assert(Seq::<char>::empty() + suffix_seq(self.0) =~= suffix_seq(self.0));
        }
        out
    }
}

// ---- a reusable code buffer ----

/// A buffer that a style's whole prefix code is written into, so it can be
/// handed to a sink in one piece.
pub struct PrefixBuffer {
    buf: String,
}

impl View for PrefixBuffer {
    type V = Seq<char>;

    closed spec fn view(&self) -> Seq<char> {
        self.buf@
    }
}

impl Default for PrefixBuffer {
    /// An empty buffer.
    fn default() -> (r: PrefixBuffer)
        ensures
            r@ == Seq::<char>::empty(),
    {
        PrefixBuffer { buf: String::new() }
    }
}

impl PrefixBuffer {
    /// Fills the buffer with the ANSI code for the given style.
    pub fn write(&mut self, style: &Style)
        ensures
            final(self)@ == prefix_seq(*style),
    {
        self.buf = String::new();
        write_prefix(&mut self.buf, style);
        proof {
            assert(Seq::<char>::empty() + prefix_seq(*style) =~= prefix_seq(*style));
        }
    }

    /// Fills the buffer with the ANSI code for the given style, including a
    /// leading reset sub-code.
    pub fn write_with_reset(&mut self, style: &Style)
        ensures
            final(self)@ == prefix_reset_seq(*style),
    {
        self.buf = String::new();
        write_prefix_with_reset(&mut self.buf, style);
        proof {
            assert(Seq::<char>::empty() + prefix_reset_seq(*style) =~= prefix_reset_seq(*style));
        }
    }

    /// The buffer's contents.
    pub fn as_str(&self) -> (r: &str)
        ensures
            r@ == self@,
    {
        self.buf.as_str()
    }
}

// ---- the sub-code alphabet ----

/// A character of the SGR sub-code alphabet: a decimal digit or the
/// semicolon separator.
pub open spec fn is_sgr_char(c: char) -> bool {
    c == ';' || ('0' <= c && c <= '9')
}

/// Every character of the sequence is a sub-code character.
pub open spec fn all_sgr(s: Seq<char>) -> bool {
    forall|i: int| 0 <= i < s.len() ==> is_sgr_char(#[trigger] s[i])
}

/// Decimal representations consist of digits alone.
proof fn lemma_dec_rep_sgr(n: int)
    ensures
        all_sgr(dec_rep(n)),
{
    assert(forall|d: int| is_sgr_char(#[trigger] digit_char(d)));
}

/// A colour's foreground sub-code consists of digits and semicolons alone.
proof fn lemma_fg_code_sgr(c: Colour)
    ensures
        all_sgr(fg_code(c)),
{
    match c {
        Colour::Fixed(n) => {
            lemma_dec_rep_sgr(n as int);
            assert(all_sgr(fg_code(c)));
        },
        Colour::RGB(r, g, b) => {
            lemma_dec_rep_sgr(r as int);
            lemma_dec_rep_sgr(g as int);
            lemma_dec_rep_sgr(b as int);
            assert(all_sgr(fg_code(c)));
        },
        _ => {},
    }
}

/// A colour's background sub-code consists of digits and semicolons alone.
proof fn lemma_bg_code_sgr(c: Colour)
    ensures
        all_sgr(bg_code(c)),
{
    match c {
        Colour::Fixed(n) => {
            lemma_dec_rep_sgr(n as int);
            assert(all_sgr(bg_code(c)));
        },
        Colour::RGB(r, g, b) => {
            lemma_dec_rep_sgr(r as int);
            lemma_dec_rep_sgr(g as int);
            lemma_dec_rep_sgr(b as int);
            assert(all_sgr(bg_code(c)));
        },
        _ => {},
    }
}

/// A list of sub-codes within the alphabet stays within it when one more
/// sub-code within the alphabet is pushed.
proof fn lemma_all_sgr_push(parts: Seq<Seq<char>>, p: Seq<char>)
    requires
        forall|j: int| 0 <= j < parts.len() ==> all_sgr(#[trigger] parts[j]),
        all_sgr(p),
    ensures
        forall|j: int| 0 <= j < parts.push(p).len() ==> all_sgr(#[trigger] parts.push(p)[j]),
{
    assert forall|j: int| 0 <= j < parts.push(p).len() implies all_sgr(parts.push(p)[j]) by {
        if j < parts.len() {
            assert(parts.push(p)[j] == parts[j]);
        } else {
            assert(parts.push(p)[j] == p);
        }
    }
}

/// Every sub-code of a style consists of digits and semicolons alone.
#[verifier::rlimit(100)]
#[verifier::spinoff_prover]
proof fn lemma_sgr_parts_all(s: Style, with_reset: bool)
    ensures
        forall|j: int|
            0 <= j < sgr_parts(s, with_reset).len() ==> all_sgr(#[trigger] sgr_parts(
                s,
                with_reset,
            )[j]),
{
    assert(forall|d: int| is_sgr_char(#[trigger] digit_char(d)));
    let p0 = Seq::<Seq<char>>::empty();
    let p1 = if with_reset { p0.push(seq!['0']) } else { p0 };
    if with_reset { lemma_all_sgr_push(p0, seq!['0']); }
    let p2 = if s.is_bold { p1.push(seq!['1']) } else { p1 };
    if s.is_bold { lemma_all_sgr_push(p1, seq!['1']); }
    let p3 = if s.is_dimmed { p2.push(seq!['2']) } else { p2 };
    if s.is_dimmed { lemma_all_sgr_push(p2, seq!['2']); }
    let p4 = if s.is_italic { p3.push(seq!['3']) } else { p3 };
    if s.is_italic { lemma_all_sgr_push(p3, seq!['3']); }
    let p5 = if s.is_underline { p4.push(seq!['4']) } else { p4 };
    if s.is_underline { lemma_all_sgr_push(p4, seq!['4']); }
    let p6 = if s.is_blink { p5.push(seq!['5']) } else { p5 };
    if s.is_blink { lemma_all_sgr_push(p5, seq!['5']); }
    let p7 = if s.is_reverse { p6.push(seq!['7']) } else { p6 };
    if s.is_reverse { lemma_all_sgr_push(p6, seq!['7']); }
    let p8 = if s.is_hidden { p7.push(seq!['8']) } else { p7 };
    if s.is_hidden { lemma_all_sgr_push(p7, seq!['8']); }
    let p9 = if s.is_strikethrough { p8.push(seq!['9']) } else { p8 };
    if s.is_strikethrough { lemma_all_sgr_push(p8, seq!['9']); }
    let p10 = match s.background {
        Some(bg) => p9.push(bg_code(bg)),
        None => p9,
    };
    match s.background {
        Some(bg) => {
            lemma_bg_code_sgr(bg);
            lemma_all_sgr_push(p9, bg_code(bg));
        },
        None => {},
    }
    let p11 = match s.foreground {
        Some(fg) => p10.push(fg_code(fg)),
        None => p10,
    };
    match s.foreground {
        Some(fg) => {
            lemma_fg_code_sgr(fg);
            lemma_all_sgr_push(p10, fg_code(fg));
        },
        None => {},
    }
    assert(sgr_parts(s, with_reset) == p11);
}

/// Joining sub-codes with semicolons stays within the sub-code alphabet.
proof fn lemma_join_all_sgr(parts: Seq<Seq<char>>)
    requires
        forall|j: int| 0 <= j < parts.len() ==> all_sgr(#[trigger] parts[j]),
    ensures
        all_sgr(join_parts(parts)),
    decreases parts.len(),
{
    if parts.len() <= 1 {
    } else {
        assert(forall|j: int|
            0 <= j < parts.drop_last().len() ==> all_sgr(#[trigger] parts.drop_last()[j]));
        lemma_join_all_sgr(parts.drop_last());
        let joined = join_parts(parts.drop_last()) + seq![';'] + parts.last();
        assert(all_sgr(parts.last()));
        assert forall|i: int| 0 <= i < joined.len() implies is_sgr_char(joined[i]) by {
            let a = join_parts(parts.drop_last());
            if i < a.len() {
                assert(joined[i] == a[i]);
            } else if i == a.len() {
                assert(joined[i] == ';');
            } else {
                assert(joined[i] == parts.last()[i - a.len() - 1]);
            }
        }
    }
}

// ---- stripping escape sequences back out ----

/// The scanner that removes `ESC [ ... m` sequences: outside an escape
/// sequence it keeps every character but `ESC`, which opens one; inside, it
/// drops everything up to and including the terminating `m`.
pub open spec fn strip_from(s: Seq<char>, in_code: bool) -> Seq<char>
    decreases s.len(),
{
    if s.len() == 0 {
        Seq::<char>::empty()
    } else if in_code {
        strip_from(s.drop_first(), s[0] != 'm')
    } else if s[0] == '\u{1b}' {
        strip_from(s.drop_first(), true)
    } else {
        seq![s[0]] + strip_from(s.drop_first(), false)
    }
}

/// The text that remains when every escape sequence is stripped out of a
/// rendered sequence.
pub open spec fn strip_codes(s: Seq<char>) -> Seq<char> {
    strip_from(s, false)
}

/// The scanner state after reading a whole sequence: true inside an escape
/// sequence, false in plain text.
pub open spec fn scan_state(s: Seq<char>, in_code: bool) -> bool
    decreases s.len(),
{
    if s.len() == 0 {
        in_code
    } else if in_code {
        scan_state(s.drop_first(), s[0] != 'm')
    } else {
        scan_state(s.drop_first(), s[0] == '\u{1b}')
    }
}

/// What a concatenation strips to: the first part's text, then the second
/// part's, scanned from wherever the first part left the scanner.
pub proof fn lemma_strip_append(a: Seq<char>, b: Seq<char>, in_code: bool)
    ensures
        strip_from(a + b, in_code) == strip_from(a, in_code) + strip_from(b, scan_state(a, in_code)),
        scan_state(a + b, in_code) == scan_state(b, scan_state(a, in_code)),
    decreases a.len(),
{
    if a.len() == 0 {
        assert(a + b =~= b);
        assert(strip_from(a, in_code) + strip_from(b, in_code) =~= strip_from(b, in_code));
    } else {
        assert((a + b).drop_first() =~= a.drop_first() + b);
        assert((a + b)[0] == a[0]);
        if in_code {
            lemma_strip_append(a.drop_first(), b, a[0] != 'm');
        } else if a[0] == '\u{1b}' {
            lemma_strip_append(a.drop_first(), b, true);
        } else {
            lemma_strip_append(a.drop_first(), b, false);
            assert(seq![a[0]] + (strip_from(a.drop_first(), false) + strip_from(
                b,
                scan_state(a.drop_first(), false),
            )) =~= (seq![a[0]] + strip_from(a.drop_first(), false)) + strip_from(
                b,
                scan_state(a.drop_first(), false),
            ));
        }
    }
}

/// Inside an escape sequence, sub-code characters are dropped without
/// closing the sequence.
proof fn lemma_strip_sgr_chars(cs: Seq<char>)
    requires
        all_sgr(cs),
    ensures
        strip_from(cs, true) == Seq::<char>::empty(),
        scan_state(cs, true) == true,
    decreases cs.len(),
{
    if cs.len() > 0 {
        assert(is_sgr_char(cs[0]));
        assert(cs[0] != 'm');
        assert(forall|i: int|
            0 <= i < cs.drop_first().len() ==> is_sgr_char(#[trigger] cs.drop_first()[i]));
        lemma_strip_sgr_chars(cs.drop_first());
    }
}

/// One whole escape sequence strips to nothing and leaves the scanner back
/// in plain text.
proof fn lemma_strip_escape(parts: Seq<Seq<char>>)
    requires
        forall|j: int| 0 <= j < parts.len() ==> all_sgr(#[trigger] parts[j]),
    ensures
        strip_from(escape(parts), false) == Seq::<char>::empty(),
        scan_state(escape(parts), false) == false,
{
    lemma_join_all_sgr(parts);
    let joined = join_parts(parts);
    let intro = seq!['\u{1b}', '['];
    let closer = seq!['m'];
    assert(escape(parts) =~= intro + (joined + closer));
    lemma_strip_append(intro, joined + closer, false);
    reveal_with_fuel(strip_from, 4);
    reveal_with_fuel(scan_state, 4);
    assert(intro.drop_first() =~= seq!['[']);
    assert(seq!['['].drop_first() =~= Seq::<char>::empty());
    assert(strip_from(intro, false) =~= Seq::<char>::empty());
    assert(scan_state(intro, false) == true);
    lemma_strip_append(joined, closer, true);
    lemma_strip_sgr_chars(joined);
    assert(closer.drop_first() =~= Seq::<char>::empty());
    assert(strip_from(closer, true) =~= Seq::<char>::empty());
    assert(scan_state(closer, true) == false);
    assert(strip_from(escape(parts), false) =~= Seq::<char>::empty());
}

/// A style's prefix carries no text: it strips to nothing and leaves the
/// scanner in plain text.
pub proof fn lemma_strip_prefix(s: Style)
    ensures
        strip_from(prefix_seq(s), false) == Seq::<char>::empty(),
        scan_state(prefix_seq(s), false) == false,
{
    if s != Style::plain() {
        lemma_sgr_parts_all(s, false);
        lemma_strip_escape(sgr_parts(s, false));
    }
}

/// The bare reset sequence carries no text.
pub proof fn lemma_strip_reset()
    ensures
        strip_from(reset_seq(), false) == Seq::<char>::empty(),
        scan_state(reset_seq(), false) == false,
{
    reveal_with_fuel(strip_from, 6);
    reveal_with_fuel(scan_state, 6);
    let r = reset_seq();
    assert(r.drop_first() =~= seq!['[', '0', 'm']);
    assert(seq!['[', '0', 'm'].drop_first() =~= seq!['0', 'm']);
    assert(seq!['0', 'm'].drop_first() =~= seq!['m']);
    assert(seq!['m'].drop_first() =~= Seq::<char>::empty());
    assert(strip_from(r, false) =~= Seq::<char>::empty());
}

/// A style's suffix carries no text either.
pub proof fn lemma_strip_suffix(s: Style)
    ensures
        strip_from(suffix_seq(s), false) == Seq::<char>::empty(),
        scan_state(suffix_seq(s), false) == false,
{
    if s != Style::plain() {
        lemma_strip_reset();
    }
}

/// A sequence free of the escape character: outside an escape sequence the
/// scanner keeps every one of its characters.
pub open spec fn esc_free(s: Seq<char>) -> bool {
    forall|i: int| 0 <= i < s.len() ==> s[i] != '\u{1b}'
}

/// Text without the escape character passes through the scanner unchanged.
pub proof fn lemma_strip_text(s: Seq<char>)
    requires
        esc_free(s),
    ensures
        strip_from(s, false) == s,
        scan_state(s, false) == false,
    decreases s.len(),
{
    if s.len() > 0 {
        assert(s[0] != '\u{1b}');
        assert(forall|i: int| 0 <= i < s.drop_first().len() ==> s.drop_first()[i] != '\u{1b}');
        lemma_strip_text(s.drop_first());
        assert(seq![s[0]] + s.drop_first() =~= s);
    }
}


// ---- byte-level emission ----

/// The bytes of an ASCII character sequence, character for character.
pub open spec fn ascii_bytes(s: Seq<char>) -> Seq<u8> {
    Seq::new(s.len(), |i: int| s[i] as u8)
}

/// Sub-code characters are ASCII.
proof fn lemma_sgr_char_ascii(c: char)
    requires
        is_sgr_char(c),
    ensures
        '\0' <= c <= '\u{7f}',
{
}

/// A whole escape sequence is ASCII.
proof fn lemma_escape_ascii(parts: Seq<Seq<char>>)
    requires
        forall|j: int| 0 <= j < parts.len() ==> all_sgr(#[trigger] parts[j]),
    ensures
        vstd::utf8::is_ascii_chars(escape(parts)),
{
    lemma_join_all_sgr(parts);
    let e = escape(parts);
    let joined = join_parts(parts);
    assert forall|i: int| 0 <= i < e.len() implies '\0' <= #[trigger] e[i] <= '\u{7f}' by {
        if 2 <= i < 2 + joined.len() {
            assert(e[i] == joined[i - 2]);
            assert(is_sgr_char(joined[i - 2]));
        }
    }
}

/// The reset sequence is ASCII.
proof fn lemma_reset_ascii()
    ensures
        vstd::utf8::is_ascii_chars(reset_seq()),
{
    assert forall|i: int| 0 <= i < reset_seq().len() implies '\0' <= #[trigger] reset_seq()[i]
        <= '\u{7f}' by {
        assert(reset_seq().len() == 4);
    }
}

/// Everything a style's prefix, forced-reset prefix or suffix emits is
/// ASCII.
pub proof fn lemma_codes_ascii(s: Style)
    ensures
        vstd::utf8::is_ascii_chars(prefix_seq(s)),
        vstd::utf8::is_ascii_chars(prefix_reset_seq(s)),
        vstd::utf8::is_ascii_chars(suffix_seq(s)),
{
    lemma_sgr_parts_all(s, false);
    lemma_sgr_parts_all(s, true);
    lemma_escape_ascii(sgr_parts(s, false));
    lemma_escape_ascii(sgr_parts(s, true));
    lemma_reset_ascii();
}

/// Appends a slice of bytes to a byte sink.
pub(crate) fn push_bytes(out: &mut Vec<u8>, b: &[u8])
    ensures
        final(out)@ == old(out)@ + b@,
{
    let ghost orig = out@;
    let mut i: usize = 0;
    while i < b.len()
        invariant
            i <= b@.len(),
            out@ == orig + b@.take(i as int),
        decreases b@.len() - i,
    {
        out.push(b[i]);
        proof {
            assert(b@.take(i + 1) =~= b@.take(i as int).push(b@[i as int]));
            assert(orig + b@.take(i as int).push(b@[i as int]) =~= (orig + b@.take(i as int)).push(
                b@[i as int],
            ));
        }
        i += 1;
    }
    proof {
        assert(b@.take(b@.len() as int) =~= b@);
    }
}

/// Appends the bytes of an ASCII string to a byte sink.
fn push_ascii_str(out: &mut Vec<u8>, s: &str)
    requires
        vstd::string::is_ascii(s),
    ensures
        final(out)@ == old(out)@ + ascii_bytes(s@),
{
    let b = s.as_bytes();
    proof {
        vstd::string::is_ascii_spec_bytes(s);
        assert(b@ =~= ascii_bytes(s@));
    }
    push_bytes(out, b);
}

/// Appends the bytes of the style's prefix to a byte sink.
pub(crate) fn write_prefix_bytes(out: &mut Vec<u8>, style: &Style)
    ensures
        final(out)@ == old(out)@ + ascii_bytes(prefix_seq(*style)),
{
    let mut s = String::new();
    write_prefix(&mut s, style);
    proof {
        assert(s@ =~= prefix_seq(*style));
        lemma_codes_ascii(*style);
    }
    push_ascii_str(out, s.as_str());
}

/// Appends the bytes of the bare reset sequence to a byte sink.
pub(crate) fn write_reset_bytes(out: &mut Vec<u8>)
    ensures
        final(out)@ == old(out)@ + ascii_bytes(reset_seq()),
{
    proof {
        lemma_reset_ascii();
    }
    push_ascii_str(out, reset_code());
}

/// Appends the bytes of the style's suffix to a byte sink.
pub(crate) fn write_suffix_bytes(out: &mut Vec<u8>, style: &Style)
    ensures
        final(out)@ == old(out)@ + ascii_bytes(suffix_seq(*style)),
{
    let mut s = String::new();
    write_suffix(&mut s, style);
    proof {
        assert(s@ =~= suffix_seq(*style));
        lemma_codes_ascii(*style);
        assert(vstd::utf8::is_ascii_chars(s@));
    }
    push_ascii_str(out, s.as_str());
}

/// The bytes of a concatenation are the concatenated bytes.
pub proof fn lemma_ascii_bytes_concat(a: Seq<char>, b: Seq<char>)
    ensures
        ascii_bytes(a + b) == ascii_bytes(a) + ascii_bytes(b),
{
    assert(ascii_bytes(a + b) =~= ascii_bytes(a) + ascii_bytes(b));
}

} // verus!

