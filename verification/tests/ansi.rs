use ansi_term::Colour::Blue;
use ansi_term::Colour::Red;
use ansi_term::Colour::White;
use ansi_term::PrefixBuffer;
use ansi_term::Style;

#[test]
fn test_infix() {
    assert_eq!(Style::new().dimmed().infix(Style::new()).render(), "\x1B[0m");
    assert_eq!(White.dimmed().infix(White.normal()).render(), "\x1B[0;37m");
    assert_eq!(White.normal().infix(White.bold()).render(), "\x1B[1m");
    assert_eq!(White.normal().infix(Blue.normal()).render(), "\x1B[34m");
    assert_eq!(Blue.bold().infix(Blue.bold()).render(), "");
}

#[test]
fn test_prefix_view() {
    assert_eq!("\x1b[1m", Style::default().bold().prefix().render());
    assert_eq!("\x1b[1;34m", Blue.bold().prefix().render());
    assert_eq!("", Style::default().prefix().render());
    assert_eq!("\x1b[31m", Red.prefix().render());
}

#[test]
fn test_suffix_view() {
    assert_eq!("\x1b[0m", Style::default().bold().suffix().render());
    assert_eq!("\x1b[0m", Red.suffix().render());
    assert_eq!("", Style::default().suffix().render());
}

#[test]
fn test_colour_infix() {
    assert_eq!("\x1b[33m", Red.infix(ansi_term::Colour::Yellow).render());
    assert_eq!("", Red.infix(Red).render());
}

#[test]
fn test_prefix_buffer() {
    let mut buf = PrefixBuffer::default();
    assert_eq!("", buf.as_str());
    buf.write(&Red.normal());
    assert_eq!("\x1B[31m", buf.as_str());
    buf.write(&Style::default());
    assert_eq!("", buf.as_str());
    buf.write_with_reset(&Red.normal());
    assert_eq!("\x1B[0;31m", buf.as_str());
    buf.write_with_reset(&Style::default());
    assert_eq!("\x1B[0m", buf.as_str());
}
