use ansi_term::Colour::Blue;
use ansi_term::Colour::Green;
use ansi_term::Colour::Red;
use ansi_term::Difference::ExtraStyles;
use ansi_term::Difference::NoDifference;
use ansi_term::Difference::Reset;
use ansi_term::Style;

#[test]
fn difference_diff() {
    let expected = ExtraStyles(Style::new().bold());
    let got = Green.normal().difference(&Green.bold());
    assert_eq!(expected, got)
}

#[test]
fn difference_dlb() {
    let got = Green.bold().difference(&Green.normal());
    assert_eq!(Reset, got)
}

#[test]
fn difference_nothing() {
    assert_eq!(NoDifference, Green.bold().difference(&Green.bold()));
}

#[test]
fn difference_nothing_2() {
    assert_eq!(NoDifference, Green.normal().difference(&Green.normal()));
}

#[test]
fn difference_colour_change() {
    assert_eq!(
        ExtraStyles(Blue.normal()),
        Red.normal().difference(&Blue.normal())
    )
}

#[test]
fn removal_of_dimmed() {
    let dimmed = Style::new().dimmed();
    let normal = Style::default();

    assert_eq!(Reset, dimmed.difference(&normal));
}

#[test]
fn addition_of_dimmed() {
    let dimmed = Style::new().dimmed();
    let normal = Style::default();
    let extra_styles = ExtraStyles(dimmed);

    assert_eq!(extra_styles, normal.difference(&dimmed));
}

#[test]
fn removal_of_blink() {
    let blink = Style::new().blink();
    let normal = Style::default();

    assert_eq!(Reset, blink.difference(&normal));
}

#[test]
fn addition_of_blink() {
    let blink = Style::new().blink();
    let normal = Style::default();
    let extra_styles = ExtraStyles(blink);

    assert_eq!(extra_styles, normal.difference(&blink));
}

#[test]
fn removal_of_reverse() {
    let reverse = Style::new().reverse();
    let normal = Style::default();

    assert_eq!(Reset, reverse.difference(&normal));
}

#[test]
fn addition_of_reverse() {
    let reverse = Style::new().reverse();
    let normal = Style::default();
    let extra_styles = ExtraStyles(reverse);

    assert_eq!(extra_styles, normal.difference(&reverse));
}

#[test]
fn removal_of_hidden() {
    let hidden = Style::new().hidden();
    let normal = Style::default();

    assert_eq!(Reset, hidden.difference(&normal));
}

#[test]
fn addition_of_hidden() {
    let hidden = Style::new().hidden();
    let normal = Style::default();
    let extra_styles = ExtraStyles(hidden);

    assert_eq!(extra_styles, normal.difference(&hidden));
}

#[test]
fn removal_of_strikethrough() {
    let strikethrough = Style::new().strikethrough();
    let normal = Style::default();

    assert_eq!(Reset, strikethrough.difference(&normal));
}

#[test]
fn addition_of_strikethrough() {
    let strikethrough = Style::new().strikethrough();
    let normal = Style::default();
    let extra_styles = ExtraStyles(strikethrough);

    assert_eq!(extra_styles, normal.difference(&strikethrough));
}

#[test]
fn reflexivity_of_complex_style() {
    let style = Red.on(Blue).bold().italic().underline().strikethrough();
    assert_eq!(NoDifference, style.difference(&style));
}

#[test]
fn reset_needed_from_any_attribute() {
    let normal = Style::default();
    assert_eq!(Reset, Red.bold().difference(&normal));
    assert_eq!(Reset, Style::new().italic().difference(&normal));
    assert_eq!(Reset, Style::new().underline().difference(&normal));
    assert_eq!(Reset, Red.on(Blue).difference(&normal));
}

#[test]
fn additive_difference_from_plain() {
    let complex = Red.on(Blue).bold().italic();
    assert_eq!(
        ExtraStyles(complex),
        Style::default().difference(&complex)
    );
}
