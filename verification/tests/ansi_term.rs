use ansi_term::Colour::Blue;
use ansi_term::Colour::Green;
use ansi_term::Colour::Red;
use ansi_term::Difference::ExtraStyles;
use ansi_term::Difference::NoDifference;
use ansi_term::Difference::Reset;
use ansi_term::Style;

#[test]
fn ansi_term_diff() {
    let expected = ExtraStyles(Style::new().bold());
    let got = Green.normal().difference(&Green.bold());
    assert_eq!(expected, got)
}

#[test]
fn ansi_term_dlb() {
    let got = Green.bold().difference(&Green.normal());
    assert_eq!(Reset, got)
}

#[test]
fn ansi_term_nothing() {
    assert_eq!(NoDifference, Green.bold().difference(&Green.bold()));
}

#[test]
fn ansi_term_nothing_2() {
    assert_eq!(NoDifference, Green.normal().difference(&Green.normal()));
}

#[test]
fn ansi_term_colour_change() {
    assert_eq!(
        ExtraStyles(Blue.normal()),
        Red.normal().difference(&Blue.normal())
    )
}
