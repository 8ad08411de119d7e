use ansi_term::Colour::Blue;
use ansi_term::Colour::Red;
use ansi_term::Colour::RGB;
use ansi_term::Style;

#[test]
fn long_and_detailed() {
    let debug = r##"Style {
    foreground: Some(
        Blue
    ),
    background: None,
    blink: false,
    bold: true,
    dimmed: false,
    hidden: false,
    italic: false,
    reverse: false,
    strikethrough: false,
    underline: false
}"##;
    assert_eq!(debug, Blue.bold().debug_string_alternate());
}

#[test]
fn compact_debug_empty() {
    assert_eq!("Style {}", Style::new().debug_string());
}

#[test]
fn compact_debug_bold() {
    assert_eq!("Style { bold }", Style::new().bold().debug_string());
}

#[test]
fn compact_debug_bold_italic() {
    assert_eq!("Style { bold, italic }", Style::new().bold().italic().debug_string());
}

#[test]
fn compact_debug_red() {
    assert_eq!("Style { fg(Red) }", Red.normal().debug_string());
}

#[test]
fn compact_debug_red_on_rgb() {
    assert_eq!(
        "Style { fg(Red), on(RGB(3, 2, 4)) }",
        Red.normal().on(RGB(3, 2, 4)).debug_string()
    );
}

#[test]
fn compact_debug_everything() {
    let style = Red
        .on(Blue)
        .blink()
        .bold()
        .dimmed()
        .hidden()
        .italic()
        .reverse()
        .strikethrough()
        .underline();
    assert_eq!(
        "Style { fg(Red), on(Blue), blink, bold, dimmed, hidden, italic, reverse, strikethrough, underline }",
        style.debug_string()
    );
}
