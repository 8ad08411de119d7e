use ansi_term::Colour::Black;
use ansi_term::Colour::Blue;
use ansi_term::Colour::Cyan;
use ansi_term::Colour::Fixed;
use ansi_term::Colour::Green;
use ansi_term::Colour::Purple;
use ansi_term::Colour::Red;
use ansi_term::Colour::White;
use ansi_term::Colour::Yellow;
use ansi_term::Colour::RGB;
use ansi_term::Style;

#[test]
fn test_red() {
    let hi = Red.paint("hi").render();
    assert!(hi == "\x1B[31mhi\x1B[0m".to_string());
}

#[test]
fn test_black() {
    let hi = Black.normal().paint("hi").render();
    assert!(hi == "\x1B[30mhi\x1B[0m".to_string());
}

#[test]
fn test_yellow_bold() {
    let hi = Yellow.bold().paint("hi").render();
    assert!(hi == "\x1B[1;33mhi\x1B[0m".to_string());
}

#[test]
fn test_yellow_bold_2() {
    let hi = Yellow.normal().bold().paint("hi").render();
    assert!(hi == "\x1B[1;33mhi\x1B[0m".to_string());
}

#[test]
fn test_blue_underline() {
    let hi = Blue.underline().paint("hi").render();
    assert!(hi == "\x1B[4;34mhi\x1B[0m".to_string());
}

#[test]
fn test_green_bold_underline() {
    let hi = Green.bold().underline().paint("hi").render();
    assert!(hi == "\x1B[1;4;32mhi\x1B[0m".to_string());
}

#[test]
fn test_green_bold_underline_2() {
    let hi = Green.underline().bold().paint("hi").render();
    assert!(hi == "\x1B[1;4;32mhi\x1B[0m".to_string());
}

#[test]
fn test_purple_on_white() {
    let hi = Purple.on(White).paint("hi").render();
    assert!(hi == "\x1B[47;35mhi\x1B[0m".to_string());
}

#[test]
fn test_purple_on_white_2() {
    let hi = Purple.normal().on(White).paint("hi").render();
    assert!(hi == "\x1B[47;35mhi\x1B[0m".to_string());
}

#[test]
fn test_cyan_bold_on_white() {
    let hi = Cyan.bold().on(White).paint("hi").render();
    assert!(hi == "\x1B[1;47;36mhi\x1B[0m".to_string());
}

#[test]
fn test_cyan_underline_on_white() {
    let hi = Cyan.underline().on(White).paint("hi").render();
    assert!(hi == "\x1B[4;47;36mhi\x1B[0m".to_string());
}

#[test]
fn test_cyan_bold_underline_on_white() {
    let hi = Cyan.bold().underline().on(White).paint("hi").render();
    assert!(hi == "\x1B[1;4;47;36mhi\x1B[0m".to_string());
}

#[test]
fn test_cyan_underline_bold_on_white() {
    let hi = Cyan.underline().bold().on(White).paint("hi").render();
    assert!(hi == "\x1B[1;4;47;36mhi\x1B[0m".to_string());
}

#[test]
fn test_fixed() {
    let hi = Fixed(100).paint("hi").render();
    assert!(hi == "\x1B[38;5;100mhi\x1B[0m".to_string());
}

#[test]
fn test_fixed_on_purple() {
    let hi = Fixed(100).on(Purple).paint("hi").render();
    assert!(hi == "\x1B[45;38;5;100mhi\x1B[0m".to_string());
}

#[test]
fn test_fixed_on_fixed() {
    let hi = Fixed(100).on(Fixed(200)).paint("hi").render();
    assert!(hi == "\x1B[48;5;200;38;5;100mhi\x1B[0m".to_string());
}

#[test]
fn test_rgb() {
    let hi = RGB(70, 130, 180).paint("hi").render();
    assert!(hi == "\x1B[38;2;70;130;180mhi\x1B[0m".to_string());
}

#[test]
fn test_rgb_on_blue() {
    let hi = RGB(70, 130, 180).on(Blue).paint("hi").render();
    assert!(hi == "\x1B[44;38;2;70;130;180mhi\x1B[0m".to_string());
}

#[test]
fn test_blue_on_rgb() {
    let hi = Blue.on(RGB(70, 130, 180)).paint("hi").render();
    assert!(hi == "\x1B[48;2;70;130;180;34mhi\x1B[0m".to_string());
}

#[test]
fn test_rgb_on_rgb() {
    let hi = RGB(70, 130, 180).on(RGB(5, 10, 15)).paint("hi").render();
    assert!(hi == "\x1B[48;2;5;10;15;38;2;70;130;180mhi\x1B[0m".to_string());
}

#[test]
fn test_plain_paint() {
    assert_eq!("text/plain", Style::default().paint("text/plain").render());
}

#[test]
fn test_single_attributes() {
    assert_eq!("\x1B[1mhi\x1B[0m", Style::new().bold().paint("hi").render());
    assert_eq!("\x1B[2mhi\x1B[0m", Style::new().dimmed().paint("hi").render());
    assert_eq!("\x1B[3mhi\x1B[0m", Style::new().italic().paint("hi").render());
    assert_eq!("\x1B[4mhi\x1B[0m", Style::new().underline().paint("hi").render());
    assert_eq!("\x1B[5mhi\x1B[0m", Style::new().blink().paint("hi").render());
    assert_eq!("\x1B[7mhi\x1B[0m", Style::new().reverse().paint("hi").render());
    assert_eq!("\x1B[8mhi\x1B[0m", Style::new().hidden().paint("hi").render());
    assert_eq!("\x1B[9mhi\x1B[0m", Style::new().strikethrough().paint("hi").render());
}

#[test]
fn test_yellow_on_blue_fg() {
    let hi = Style::new().on(Blue).fg(Yellow).paint("hi").render();
    assert!(hi == "\x1B[44;33mhi\x1B[0m".to_string());
}

#[test]
fn test_fixed_decimal_widths() {
    assert_eq!("\x1B[38;5;0mx\x1B[0m", Fixed(0).paint("x").render());
    assert_eq!("\x1B[38;5;9mx\x1B[0m", Fixed(9).paint("x").render());
    assert_eq!("\x1B[38;5;10mx\x1B[0m", Fixed(10).paint("x").render());
    assert_eq!("\x1B[38;5;99mx\x1B[0m", Fixed(99).paint("x").render());
    assert_eq!("\x1B[38;5;100mx\x1B[0m", Fixed(100).paint("x").render());
    assert_eq!("\x1B[38;5;255mx\x1B[0m", Fixed(255).paint("x").render());
}

/// Strips every `ESC [ ... m` sequence out of a rendered string.
fn strip_codes(rendered: &str) -> String {
    let mut out = String::new();
    let mut in_code = false;
    for c in rendered.chars() {
        if in_code {
            if c == 'm' {
                in_code = false;
            }
        } else if c == '\x1B' {
            in_code = true;
        } else {
            out.push(c);
        }
    }
    out
}

#[test]
fn test_round_trip_emptiness() {
    let styles = [
        Style::default(),
        Red.normal(),
        Yellow.bold(),
        Fixed(100).on(Fixed(200)),
        RGB(70, 130, 180).on(Blue).underline().strikethrough(),
        Style::new().bold().dimmed().italic().underline().blink().reverse().hidden().strikethrough(),
    ];
    for style in styles {
        assert_eq!("", strip_codes(&style.paint("").render()));
    }
}

#[test]
fn test_additive_difference_prefixes() {
    let complex = Red.on(Blue).bold().italic();
    let joined = format!(
        "{}{}",
        Style::default().prefix().render(),
        complex.prefix().render()
    );
    assert_eq!(complex.prefix().render(), joined);
}
