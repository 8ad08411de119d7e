//! Styled text fragments and the fragment-stream writer.
//!
//! An [`ANSIGenericString`] pairs one [`Style`] with one span of text; an
//! [`ANSIGenericStrings`] sequence walks its fragments pairwise and emits
//! only the escape codes each transition needs, ending with a single reset
//! when the last fragment carries any styling at all.

use std::borrow::Cow;

use vstd::prelude::*;

use crate::ansi::ascii_bytes;
use crate::ansi::lemma_ascii_bytes_concat;
use crate::ansi::esc_free;
use crate::ansi::lemma_strip_append;
use crate::ansi::lemma_strip_reset;
use crate::ansi::lemma_strip_text;
use crate::ansi::lemma_strip_prefix;
use crate::ansi::lemma_strip_suffix;
use crate::ansi::prefix_seq;
use crate::ansi::strip_codes;
use crate::ansi::strip_from;
use crate::ansi::reset_code;
use crate::ansi::scan_state;
use crate::ansi::reset_seq;
use crate::ansi::suffix_seq;
use crate::ansi::push_bytes;
use crate::ansi::write_prefix;
use crate::ansi::write_prefix_bytes;
use crate::ansi::write_reset_bytes;
use crate::ansi::write_suffix_bytes;
use crate::ansi::write_suffix;
use crate::colour::Colour;
use crate::difference::Difference;
use crate::style::Style;

verus! {

/// An `ANSIGenericString` includes a generic string type and a `Style` to
/// display that string.  `ANSIString` and `ANSIByteString` are aliases for
/// this type on `&str` and `&[u8]`, respectively.
#[derive(Clone, Copy, Debug)]
pub struct ANSIGenericString<S> {
    /// Style of the text.
    pub style: Style,
    /// The text itself.
    pub string: S,
}

/// An ANSI String is a string coupled with the Style to display it
/// in a terminal.
pub type ANSIString<'a> = ANSIGenericString<&'a str>;

/// An ANSIByteString represents a formatted series of bytes.  Use
/// ANSIByteString when styling text with an unknown encoding.
pub type ANSIByteString<'a> = ANSIGenericString<&'a [u8]>;

impl<S> ANSIGenericString<S> {
    /// Creates a new fragment with the given contents and style.
    pub fn new(string: S, style: Style) -> (r: ANSIGenericString<S>)
        ensures
            r == (ANSIGenericString { style, string }),
    {
        ANSIGenericString { style, string }
    }
}

/// A set of `ANSIGenericString`s collected together, in order to be
/// written with a minimum of control characters.
pub struct ANSIGenericStrings<S>(pub Vec<ANSIGenericString<S>>);

/// A set of `ANSIString`s collected together, in order to be written with a
/// minimum of control characters.
pub type ANSIStrings<'a> = ANSIGenericStrings<&'a str>;

/// A set of `ANSIByteString`s collected together, in order to be
/// written with a minimum of control characters.
pub type ANSIByteStrings<'a> = ANSIGenericStrings<&'a [u8]>;

/// A function to construct an ANSIStrings instance.
#[allow(non_snake_case)]
pub fn ANSIStrings<'a>(arg: Vec<ANSIString<'a>>) -> (r: ANSIStrings<'a>)
    ensures
        r.0@ == arg@,
{
    ANSIGenericStrings(arg)
}

/// A function to construct an ANSIByteStrings instance.
#[allow(non_snake_case)]
pub fn ANSIByteStrings<'a>(arg: Vec<ANSIByteString<'a>>) -> (r: ANSIByteStrings<'a>)
    ensures
        r.0@ == arg@,
{
    ANSIGenericStrings(arg)
}

// ---- paint functions ----

impl Style {
    /// Paints the given text with this style, returning an ANSI string.
    #[must_use]
    pub fn paint<S>(self, string: S) -> (r: ANSIGenericString<S>)
        ensures
            r == (ANSIGenericString { style: self, string }),
    {
        ANSIGenericString { style: self, string }
    }
}

impl Colour {
    /// Paints the given text with this colour, returning an ANSI string.
    /// This is a short-cut so you don't have to use `Blue.normal()` just
    /// to get blue text.
    #[must_use]
    pub fn paint<S>(self, string: S) -> (r: ANSIGenericString<S>)
        ensures
            r == (ANSIGenericString {
                style: Style { foreground: Some(self), ..Style::plain() },
                string,
            }),
    {
        self.normal().paint(string)
    }
}

impl Style {
    /// Paints the given text, owned or borrowed, with this style.
    #[must_use]
    pub fn paint_cow<'a>(self, input: Cow<'a, str>) -> (r: ANSIGenericString<Cow<'a, str>>)
        ensures
            r.style == self,
            r.string == input,
    {
        ANSIGenericString { style: self, string: input }
    }
}

impl Colour {
    /// Paints the given text, owned or borrowed, with this colour.
    #[must_use]
    pub fn paint_cow<'a>(self, input: Cow<'a, str>) -> (r: ANSIGenericString<Cow<'a, str>>)
        ensures
            r.style == (Style { foreground: Some(self), ..Style::plain() }),
            r.string == input,
    {
        self.normal().paint_cow(input)
    }
}

// ---- the fragment-stream model ----

/// The characters that switch a terminal from the style of one fragment to
/// the style of the next: nothing when the styles are equal, the extra
/// codes alone when an incremental transition exists, and otherwise the
/// bare reset sequence followed by the next style's whole prefix.
pub open spec fn transition_seq(prev: Style, next: Style) -> Seq<char> {
    match prev.spec_difference(next) {
        Difference::NoDifference => Seq::<char>::empty(),
        Difference::ExtraStyles(extra) => prefix_seq(extra),
        Difference::Reset => reset_seq() + prefix_seq(next),
    }
}

/// The characters the stream writer emits for the fragments after the
/// first, each preceded by its transition from the fragment before it.
pub open spec fn render_tail(prev: Style, rest: Seq<(Style, Seq<char>)>) -> Seq<char>
    decreases rest.len(),
{
    if rest.len() == 0 {
        Seq::<char>::empty()
    } else {
        transition_seq(prev, rest[0].0) + rest[0].1 + render_tail(rest[0].0, rest.drop_first())
    }
}

/// Everything the stream writer emits before the trailing suffix: the first
/// fragment's prefix and text, then each following fragment's transition
/// and text.
pub open spec fn render_body(frags: Seq<(Style, Seq<char>)>) -> Seq<char> {
    if frags.len() == 0 {
        Seq::<char>::empty()
    } else {
        prefix_seq(frags[0].0) + frags[0].1 + render_tail(frags[0].0, frags.drop_first())
    }
}

/// The whole output of the stream writer: the body, then — only when the
/// last fragment's style opened anything at all — one final reset.
pub open spec fn render_frags(frags: Seq<(Style, Seq<char>)>) -> Seq<char> {
    if frags.len() == 0 {
        Seq::<char>::empty()
    } else {
        render_body(frags) + suffix_seq(frags.last().0)
    }
}

/// The texts of the fragments, concatenated.
pub open spec fn concat_texts(frags: Seq<(Style, Seq<char>)>) -> Seq<char>
    decreases frags.len(),
{
    if frags.len() == 0 {
        Seq::<char>::empty()
    } else {
        frags[0].1 + concat_texts(frags.drop_first())
    }
}

/// A position capped at a sequence's end.
pub open spec fn cap(x: int, n: int) -> int {
    if x < n {
        x
    } else {
        n
    }
}

// ---- rendering one fragment ----

impl<'a> ANSIGenericString<&'a str> {
    /// Everything rendering this fragment emits: the style's prefix, the
    /// text itself, and the style's suffix.
    pub open spec fn rendered(self) -> Seq<char> {
        prefix_seq(self.style) + self.string@ + suffix_seq(self.style)
    }

    /// Appends the fragment's full rendering to `out`.
    pub fn write_to(&self, out: &mut String)
        ensures
            final(out)@ == old(out)@ + self.rendered(),
    {
        let ghost orig = out@;
        write_prefix(out, &self.style);
        out.append(self.string);
        write_suffix(out, &self.style);
        proof {
            assert(out@ =~= orig + self.rendered());
        }
    }

    /// The fragment rendered as its own string.
    pub fn render(&self) -> (r: String)
        ensures
            r@ == self.rendered(),
    {
        let mut out = String::new();
        self.write_to(&mut out);
        proof {
            assert(Seq::<char>::empty() + self.rendered() =~= self.rendered());
        }
        out
    }
}

impl<'a> ANSIGenericString<Cow<'a, str>> {
    /// Everything rendering this fragment emits: the style's prefix, the
    /// text itself, and the style's suffix.
    pub open spec fn rendered(self) -> Seq<char> {
        prefix_seq(self.style) + self.string@ + suffix_seq(self.style)
    }

    /// The fragment rendered as its own string.
    pub fn render(&self) -> (r: String)
        ensures
            r@ == self.rendered(),
    {
        let mut out = String::new();
        write_prefix(&mut out, &self.style);
        match &self.string {
            Cow::Borrowed(s) => out.append(s),
            Cow::Owned(o) => out.append(o.as_str()),
        }
        write_suffix(&mut out, &self.style);
        proof {
            assert(out@ =~= self.rendered());
        }
        out
    }
}

// ---- the fragment-stream writer ----

impl<S> ANSIGenericStrings<S> {
    /// The texts of the fragments, in order.
    pub open spec fn contents(self) -> Seq<S> {
        self.0@.map_values(|f: ANSIGenericString<S>| f.string)
    }
}

/// The style and text of each fragment in a list, as the stream model and
/// the substring model see them.
pub open spec fn frag_views<'a>(v: Seq<ANSIGenericString<&'a str>>) -> Seq<(Style, Seq<char>)> {
    v.map_values(|f: ANSIGenericString<&'a str>| (f.style, f.string@))
}

impl<'a> ANSIGenericStrings<&'a str> {
    /// The fragments as the stream model sees them: style and text of each.
    pub open spec fn frags(self) -> Seq<(Style, Seq<char>)> {
        frag_views(self.0@)
    }

    /// Returns the string values stored, in order.
    pub fn values(&self) -> (r: Vec<&'a str>)
        ensures
            r@ == self.contents(),
    {
        let mut r: Vec<&'a str> = Vec::new();
        let mut i: usize = 0;
        while i < self.0.len()
            invariant
                i <= self.0@.len(),
                r@ == self.contents().take(i as int),
            decreases self.0@.len() - i,
        {
            r.push(self.0[i].string);
            proof {
                assert(self.contents().take(i + 1) =~= self.contents().take(i as int).push(
                    self.0@[i as int].string,
                ));
            }
            i += 1;
        }
        proof {
            assert(self.contents().take(self.0@.len() as int) =~= self.contents());
        }
        r
    }

    /// Appends to `out` everything the fragments need: the first fragment's
    /// prefix, each fragment's text with only the transition codes between
    /// them, and a single trailing reset when the last style is not plain.
    pub fn write_to(&self, out: &mut String)
        ensures
            final(out)@ == old(out)@ + render_frags(self.frags()),
    {
        let ghost frags = self.frags();
        let ghost orig = out@;
        let n = self.0.len();
        if n == 0 {
            proof {
                assert(out@ =~= orig + render_frags(frags));
            }
            return ;
        }
        write_prefix(out, &self.0[0].style);
        out.append(self.0[0].string);
        let ghost mut done = prefix_seq(frags[0].0) + frags[0].1;
        proof {
            assert(frags[0] == (self.0@[0].style, self.0@[0].string@));
            assert(out@ =~= orig + done);
        }
        let mut i: usize = 1;
        while i < n
            invariant
                1 <= i <= n,
                n == self.0@.len(),
                frags == self.frags(),
                frags.len() == n,
                out@ == orig + done,
                render_body(frags) == done + render_tail(frags[i - 1].0, frags.skip(i as int)),
            decreases n - i,
        {
            proof {
                assert(frags[i as int] == (self.0@[i as int].style, self.0@[i as int].string@));
                assert(frags[i - 1].0 == self.0@[i - 1].style);
            }
            let prev = self.0[i - 1].style;
            let cur = self.0[i].style;
            match prev.difference(&cur) {
                Difference::NoDifference => {},
                Difference::ExtraStyles(extra) => {
                    write_prefix(out, &extra);
                },
                Difference::Reset => {
                    out.append(reset_code());
                    write_prefix(out, &cur);
                },
            }
            out.append(self.0[i].string);
            proof {
                let rest = frags.skip(i as int);
                assert(rest[0] == frags[i as int]);
                assert(rest.drop_first() =~= frags.skip(i + 1));
                assert(out@ =~= orig + (done + transition_seq(prev, cur) + frags[i as int].1));
                assert(done + (transition_seq(prev, cur) + frags[i as int].1 + render_tail(
                    cur,
                    frags.skip(i + 1),
                )) =~= (done + transition_seq(prev, cur) + frags[i as int].1) + render_tail(
                    cur,
                    frags.skip(i + 1),
                ));
                done = done + transition_seq(prev, cur) + frags[i as int].1;
            }
            i += 1;
        }
        write_suffix(out, &self.0[n - 1].style);
        proof {
            assert(frags.skip(n as int) =~= Seq::<(Style, Seq<char>)>::empty());
            assert(done + Seq::<char>::empty() =~= done);
            assert(frags.last() == frags[n - 1]);
            assert(frags[n - 1].0 == self.0@[n - 1].style);
            assert(out@ =~= orig + render_frags(frags));
        }
    }

    /// The whole fragment sequence rendered as one string.
    pub fn render(&self) -> (r: String)
        ensures
            r@ == render_frags(self.frags()),
    {
        let mut out = String::new();
        self.write_to(&mut out);
        proof {
            assert(Seq::<char>::empty() + render_frags(self.frags()) =~= render_frags(
                self.frags(),
            ));
        }
        out
    }
}

/// Rendering a fragment whose text is empty, then stripping every
/// `ESC [ ... m` sequence back out of the result, leaves nothing at all:
/// the rendering consists of escape sequences alone.
pub proof fn lemma_strip_render_empty(f: ANSIGenericString<&str>)
    requires
        f.string@.len() == 0,
    ensures
        strip_codes(f.rendered()) == Seq::<char>::empty(),
{
    let s = f.style;
    assert(f.rendered() =~= prefix_seq(s) + suffix_seq(s));
    lemma_strip_append(prefix_seq(s), suffix_seq(s), false);
    lemma_strip_prefix(s);
    lemma_strip_suffix(s);
    assert(strip_codes(f.rendered()) =~= Seq::<char>::empty());
}

// ---- byte fragments ----

/// The style and bytes of each byte fragment in a list.
pub open spec fn byte_frag_views<'a>(v: Seq<ANSIGenericString<&'a [u8]>>) -> Seq<(Style, Seq<u8>)> {
    v.map_values(|f: ANSIGenericString<&'a [u8]>| (f.style, f.string@))
}

impl<'a> ANSIGenericString<&'a [u8]> {
    /// Everything rendering this byte fragment emits: the bytes of the
    /// style's prefix, the bytes themselves, and the bytes of the style's
    /// suffix.
    pub open spec fn rendered(self) -> Seq<u8> {
        ascii_bytes(prefix_seq(self.style)) + self.string@ + ascii_bytes(suffix_seq(self.style))
    }

    /// Writes the fragment to a byte sink.  This writes the escape
    /// sequences for the associated `Style` around the bytes.
    pub fn write_to(&self, out: &mut Vec<u8>)
        ensures
            final(out)@ == old(out)@ + self.rendered(),
    {
        let ghost orig = out@;
        write_prefix_bytes(out, &self.style);
        push_bytes(out, self.string);
        write_suffix_bytes(out, &self.style);
        proof {
            assert(out@ =~= orig + self.rendered());
        }
    }
}

// ---- the byte fragment-stream writer ----

/// The bytes that switch a terminal from the style of one byte fragment to
/// the style of the next.
pub open spec fn transition_bytes(prev: Style, next: Style) -> Seq<u8> {
    ascii_bytes(transition_seq(prev, next))
}

/// The bytes the stream writer emits for the byte fragments after the
/// first.
pub open spec fn render_tail_bytes(prev: Style, rest: Seq<(Style, Seq<u8>)>) -> Seq<u8>
    decreases rest.len(),
{
    if rest.len() == 0 {
        Seq::<u8>::empty()
    } else {
        transition_bytes(prev, rest[0].0) + rest[0].1 + render_tail_bytes(
            rest[0].0,
            rest.drop_first(),
        )
    }
}

/// Everything the byte stream writer emits before the trailing suffix.
pub open spec fn render_body_bytes(frags: Seq<(Style, Seq<u8>)>) -> Seq<u8> {
    if frags.len() == 0 {
        Seq::<u8>::empty()
    } else {
        ascii_bytes(prefix_seq(frags[0].0)) + frags[0].1 + render_tail_bytes(
            frags[0].0,
            frags.drop_first(),
        )
    }
}

/// The whole output of the byte stream writer.
pub open spec fn render_frags_bytes(frags: Seq<(Style, Seq<u8>)>) -> Seq<u8> {
    if frags.len() == 0 {
        Seq::<u8>::empty()
    } else {
        render_body_bytes(frags) + ascii_bytes(suffix_seq(frags.last().0))
    }
}

impl<'a> ANSIGenericStrings<&'a [u8]> {
    /// The byte fragments as the stream model sees them.
    pub open spec fn byte_frags(self) -> Seq<(Style, Seq<u8>)> {
        byte_frag_views(self.0@)
    }

    /// Writes the fragments to a byte sink with the minimal escape
    /// sequences for the associated `Style`s around each set of bytes.
    pub fn write_to(&self, out: &mut Vec<u8>)
        ensures
            final(out)@ == old(out)@ + render_frags_bytes(self.byte_frags()),
    {
        let ghost frags = self.byte_frags();
        let ghost orig = out@;
        let n = self.0.len();
        if n == 0 {
            proof {
                assert(out@ =~= orig + render_frags_bytes(frags));
            }
            return ;
        }
        write_prefix_bytes(out, &self.0[0].style);
        push_bytes(out, self.0[0].string);
        let ghost mut done = ascii_bytes(prefix_seq(frags[0].0)) + frags[0].1;
        proof {
            assert(frags[0] == (self.0@[0].style, self.0@[0].string@));
            assert(out@ =~= orig + done);
        }
        let mut i: usize = 1;
        while i < n
            invariant
                1 <= i <= n,
                n == self.0@.len(),
                frags == self.byte_frags(),
                frags.len() == n,
                out@ == orig + done,
                render_body_bytes(frags) == done + render_tail_bytes(
                    frags[i - 1].0,
                    frags.skip(i as int),
                ),
            decreases n - i,
        {
            proof {
                assert(frags[i as int] == (self.0@[i as int].style, self.0@[i as int].string@));
                assert(frags[i - 1].0 == self.0@[i - 1].style);
            }
            let prev = self.0[i - 1].style;
            let cur = self.0[i].style;
            match prev.difference(&cur) {
                Difference::NoDifference => {
                    proof {
                        assert(transition_bytes(prev, cur) =~= Seq::<u8>::empty());
                    }
                },
                Difference::ExtraStyles(extra) => {
                    write_prefix_bytes(out, &extra);
                },
                Difference::Reset => {
                    let ghost mid = out@;
                    write_reset_bytes(out);
                    write_prefix_bytes(out, &cur);
                    proof {
                        lemma_ascii_bytes_concat(reset_seq(), prefix_seq(cur));
                        assert(out@ =~= mid + transition_bytes(prev, cur));
                    }
                },
            }
            push_bytes(out, self.0[i].string);
            proof {
                let rest = frags.skip(i as int);
                assert(rest[0] == frags[i as int]);
                assert(rest.drop_first() =~= frags.skip(i + 1));
                assert(out@ =~= orig + (done + transition_bytes(prev, cur) + frags[i as int].1));
                assert(done + (transition_bytes(prev, cur) + frags[i as int].1 + render_tail_bytes(
                    cur,
                    frags.skip(i + 1),
                )) =~= (done + transition_bytes(prev, cur) + frags[i as int].1)
                    + render_tail_bytes(cur, frags.skip(i + 1)));
                done = done + transition_bytes(prev, cur) + frags[i as int].1;
            }
            i += 1;
        }
        write_suffix_bytes(out, &self.0[n - 1].style);
        proof {
            assert(frags.skip(n as int) =~= Seq::<(Style, Seq<u8>)>::empty());
            assert(done + Seq::<u8>::empty() =~= done);
            assert(frags.last() == frags[n - 1]);
            assert(frags[n - 1].0 == self.0@[n - 1].style);
            assert(out@ =~= orig + render_frags_bytes(frags));
        }
    }
}

/// One transition between adjacent fragments carries no text: it strips to
/// nothing and leaves the scanner in plain text.
proof fn lemma_strip_transition(prev: Style, next: Style)
    ensures
        strip_from(transition_seq(prev, next), false) == Seq::<char>::empty(),
        scan_state(transition_seq(prev, next), false) == false,
{
    match prev.spec_difference(next) {
        Difference::NoDifference => {},
        Difference::ExtraStyles(extra) => {
            lemma_strip_prefix(extra);
        },
        Difference::Reset => {
            lemma_strip_append(reset_seq(), prefix_seq(next), false);
            lemma_strip_reset();
            lemma_strip_prefix(next);
            assert(strip_from(transition_seq(prev, next), false) =~= Seq::<char>::empty());
        },
    }
}

/// What the stream writer emits after the first fragment strips back to the
/// remaining texts.
proof fn lemma_strip_tail(prev: Style, rest: Seq<(Style, Seq<char>)>)
    requires
        forall|j: int| 0 <= j < rest.len() ==> esc_free(#[trigger] rest[j].1),
    ensures
        strip_from(render_tail(prev, rest), false) == concat_texts(rest),
        scan_state(render_tail(prev, rest), false) == false,
    decreases rest.len(),
{
    if rest.len() > 0 {
        let t = transition_seq(prev, rest[0].0);
        let text = rest[0].1;
        let tail = render_tail(rest[0].0, rest.drop_first());
        assert(render_tail(prev, rest) =~= t + (text + tail));
        lemma_strip_append(t, text + tail, false);
        lemma_strip_transition(prev, rest[0].0);
        lemma_strip_append(text, tail, false);
        assert(esc_free(text));
        lemma_strip_text(text);
        assert(forall|j: int|
            0 <= j < rest.drop_first().len() ==> esc_free(#[trigger] rest.drop_first()[j].1));
        lemma_strip_tail(rest[0].0, rest.drop_first());
        assert(strip_from(render_tail(prev, rest), false) =~= concat_texts(rest));
    }
}

/// Stripping every escape sequence back out of the stream writer's output
/// returns exactly the concatenated texts of the fragments, in order: the
/// writer never invents, drops or reorders a character of text, whatever
/// the styles, as long as the texts themselves carry no escape character.
pub proof fn lemma_strip_stream_render(frags: Seq<(Style, Seq<char>)>)
    requires
        forall|j: int| 0 <= j < frags.len() ==> esc_free(#[trigger] frags[j].1),
    ensures
        strip_codes(render_frags(frags)) == concat_texts(frags),
{
    if frags.len() > 0 {
        let p = prefix_seq(frags[0].0);
        let text = frags[0].1;
        let tail = render_tail(frags[0].0, frags.drop_first());
        let suffix = suffix_seq(frags.last().0);
        assert(render_frags(frags) =~= p + (text + (tail + suffix)));
        lemma_strip_append(p, text + (tail + suffix), false);
        lemma_strip_prefix(frags[0].0);
        lemma_strip_append(text, tail + suffix, false);
        assert(esc_free(text));
        lemma_strip_text(text);
        lemma_strip_append(tail, suffix, false);
        assert(forall|j: int|
            0 <= j < frags.drop_first().len() ==> esc_free(#[trigger] frags.drop_first()[j].1));
        lemma_strip_tail(frags[0].0, frags.drop_first());
        lemma_strip_suffix(frags.last().0);
        assert(strip_codes(render_frags(frags)) =~= concat_texts(frags));
    }
}

} // verus!
