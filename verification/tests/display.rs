use ansi_term::ANSIByteStrings;
use ansi_term::ANSIStrings;
use ansi_term::Colour::Green;
use ansi_term::Colour::Red;
use ansi_term::Style;

#[test]
fn no_control_codes_for_plain() {
    let one = Style::default().paint("one");
    let two = Style::default().paint("two");
    let output = ANSIStrings(vec![one, two]).render();
    assert_eq!(&*output, "onetwo");
}

#[test]
fn empty_sequence_renders_nothing() {
    assert_eq!("", ANSIStrings(vec![]).render());
}

#[test]
fn collapsing_omits_reset_for_added_bold() {
    let strings = vec![
        Red.paint("["),
        Red.bold().paint("101"),
        Red.paint("]"),
    ];
    let output = ANSIStrings(strings).render();
    // No reset between the first two fragments: only the extra bold code.
    assert_eq!("\x1B[31m[\x1B[1m101\x1B[0m\x1B[31m]\x1B[0m", output);
    assert!(!output.starts_with("\x1B[31m[\x1B[0m"));
}

#[test]
fn adding_bold_needs_no_restatement_of_green() {
    let strings = vec![Green.normal().paint("a"), Green.bold().paint("b")];
    let output = ANSIStrings(strings).render();
    assert_eq!("\x1B[32ma\x1B[1mb\x1B[0m", output);
}

#[test]
fn removing_bold_forces_full_reset() {
    let strings = vec![Green.bold().paint("a"), Green.normal().paint("b")];
    let output = ANSIStrings(strings).render();
    assert_eq!("\x1B[1;32ma\x1B[0m\x1B[32mb\x1B[0m", output);
}

#[test]
fn plain_last_fragment_needs_no_trailing_reset() {
    let strings = vec![Red.paint("red"), Style::default().paint("plain")];
    let output = ANSIStrings(strings).render();
    assert_eq!("\x1B[31mred\x1B[0mplain", output);
}

#[test]
fn values_returns_the_texts() {
    let strings = vec![
        Red.paint("Red"),
        Style::default().paint(" "),
        Green.paint("Green"),
    ];
    let strings = ANSIStrings(strings);
    let values = strings.values();
    assert_eq!(vec!["Red", " ", "Green"], values);
    let unstyled_len = values.iter().map(|v| v.len()).sum::<usize>();
    assert_eq!(9, unstyled_len);
}

#[test]
fn fragment_write_to_appends() {
    let mut out = String::from("start:");
    Red.paint("hi").write_to(&mut out);
    assert_eq!("start:\x1B[31mhi\x1B[0m", out);
}

#[test]
fn byte_fragment_write_to() {
    let mut v: Vec<u8> = Vec::new();
    Green.paint("user data".as_bytes()).write_to(&mut v);
    assert_eq!(b"\x1B[32muser data\x1B[0m".as_slice(), v.as_slice());
}

#[test]
fn byte_strings_collapse_codes() {
    let mut v: Vec<u8> = Vec::new();
    ANSIByteStrings(vec![
        Green.paint("user data 1\n".as_bytes()),
        Green.bold().paint("user data 2\n".as_bytes()),
    ])
    .write_to(&mut v);
    assert_eq!(
        b"\x1B[32muser data 1\n\x1B[1muser data 2\n\x1B[0m".as_slice(),
        v.as_slice()
    );
}

#[test]
fn new_fragment_carries_style_and_text() {
    let fragment = ansi_term::ANSIString::new("hi", Red.normal());
    assert_eq!("\x1B[31mhi\x1B[0m", fragment.render());
}

#[test]
fn plain_paint_of_x_renders_x() {
    assert_eq!("x", Style::default().paint("x").render());
    assert_eq!("", Style::default().prefix().render());
    assert_eq!("", Style::default().suffix().render());
}

#[test]
fn paint_cow_owned_and_borrowed() {
    let borrowed = Red.paint_cow(std::borrow::Cow::Borrowed("hi"));
    assert_eq!("\x1B[31mhi\x1B[0m", borrowed.render());
    let owned = Style::new().bold().paint_cow(std::borrow::Cow::Owned(String::from("hi")));
    assert_eq!("\x1B[1mhi\x1B[0m", owned.render());
}

/// Removes every `ESC [ ... m` sequence from a rendered string.
fn strip_sgr(rendered: &str) -> String {
    let mut out = String::new();
    let mut in_code = false;
    for c in rendered.chars() {
        if in_code {
            if c == 'm' {
                in_code = false;
            }
        } else if c == '\x1B' {
            in_code = true;
        } else {
            out.push(c);
        }
    }
    out
}

#[test]
fn stream_render_strips_back_to_the_texts() {
    let strings = vec![
        Red.paint("foo"),
        Red.bold().paint("bar"),
        Style::default().paint("baz"),
        Green.underline().paint("qux"),
    ];
    let rendered = ANSIStrings(strings).render();
    assert_eq!("foobarbazqux", strip_sgr(&rendered));
}
