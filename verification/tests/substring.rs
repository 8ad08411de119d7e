use ansi_term::ANSIStrings;
use ansi_term::Colour;
use ansi_term::Style;

#[test]
fn test_substring() {
    let strings = vec![
        Colour::Black.paint("foo"),
        Colour::Red.paint("bar"),
        Colour::White.paint("baz"),
    ];
    let strings = ANSIStrings(strings);
    let mut results = vec![];
    for start in 0..10 {
        for end in start..11 {
            let substring = strings
                .substring(start, end)
                .iter()
                .map(|fragment| fragment.render())
                .collect::<String>();
            results.push(format!("{start}..{end:2} ‘{substring}’\n"));
        }
    }
    let got = results
        .into_iter()
        .collect::<String>()
        .replace("\x1b[0m", ">")
        .replace("\x1b[30m", "B<")
        .replace("\x1b[31m", "R<")
        .replace("\x1b[37m", "W<");
    assert_eq!("0.. 0 ‘’\n\
                0.. 1 ‘B<f>’\n\
                0.. 2 ‘B<fo>’\n\
                0.. 3 ‘B<foo>’\n\
                0.. 4 ‘B<foo>R<b>’\n\
                0.. 5 ‘B<foo>R<ba>’\n\
                0.. 6 ‘B<foo>R<bar>’\n\
                0.. 7 ‘B<foo>R<bar>W<b>’\n\
                0.. 8 ‘B<foo>R<bar>W<ba>’\n\
                0.. 9 ‘B<foo>R<bar>W<baz>’\n\
                0..10 ‘B<foo>R<bar>W<baz>’\n\
                1.. 1 ‘’\n\
                1.. 2 ‘B<o>’\n\
                1.. 3 ‘B<oo>’\n\
                1.. 4 ‘B<oo>R<b>’\n\
                1.. 5 ‘B<oo>R<ba>’\n\
                1.. 6 ‘B<oo>R<bar>’\n\
                1.. 7 ‘B<oo>R<bar>W<b>’\n\
                1.. 8 ‘B<oo>R<bar>W<ba>’\n\
                1.. 9 ‘B<oo>R<bar>W<baz>’\n\
                1..10 ‘B<oo>R<bar>W<baz>’\n\
                2.. 2 ‘’\n\
                2.. 3 ‘B<o>’\n\
                2.. 4 ‘B<o>R<b>’\n\
                2.. 5 ‘B<o>R<ba>’\n\
                2.. 6 ‘B<o>R<bar>’\n\
                2.. 7 ‘B<o>R<bar>W<b>’\n\
                2.. 8 ‘B<o>R<bar>W<ba>’\n\
                2.. 9 ‘B<o>R<bar>W<baz>’\n\
                2..10 ‘B<o>R<bar>W<baz>’\n\
                3.. 3 ‘’\n\
                3.. 4 ‘R<b>’\n\
                3.. 5 ‘R<ba>’\n\
                3.. 6 ‘R<bar>’\n\
                3.. 7 ‘R<bar>W<b>’\n\
                3.. 8 ‘R<bar>W<ba>’\n\
                3.. 9 ‘R<bar>W<baz>’\n\
                3..10 ‘R<bar>W<baz>’\n\
                4.. 4 ‘’\n\
                4.. 5 ‘R<a>’\n\
                4.. 6 ‘R<ar>’\n\
                4.. 7 ‘R<ar>W<b>’\n\
                4.. 8 ‘R<ar>W<ba>’\n\
                4.. 9 ‘R<ar>W<baz>’\n\
                4..10 ‘R<ar>W<baz>’\n\
                5.. 5 ‘’\n\
                5.. 6 ‘R<r>’\n\
                5.. 7 ‘R<r>W<b>’\n\
                5.. 8 ‘R<r>W<ba>’\n\
                5.. 9 ‘R<r>W<baz>’\n\
                5..10 ‘R<r>W<baz>’\n\
                6.. 6 ‘’\n\
                6.. 7 ‘W<b>’\n\
                6.. 8 ‘W<ba>’\n\
                6.. 9 ‘W<baz>’\n\
                6..10 ‘W<baz>’\n\
                7.. 7 ‘’\n\
                7.. 8 ‘W<a>’\n\
                7.. 9 ‘W<az>’\n\
                7..10 ‘W<az>’\n\
                8.. 8 ‘’\n\
                8.. 9 ‘W<z>’\n\
                8..10 ‘W<z>’\n\
                9.. 9 ‘’\n\
                9..10 ‘’\n\
                ", got);
}

#[test]
fn substring_of_sliced_sequence_keeps_styles() {
    let strings = vec![
        Style::new().paint("The quick "),
        Colour::Yellow.paint("brown"),
        Style::new().paint(" fox jumped over the lazy dog"),
    ];
    let strings = ANSIStrings(strings);
    let fox = strings.substring(4, 19);
    let fox = ANSIStrings(fox);
    assert_eq!("quick \u{1b}[33mbrown\u{1b}[0m fox", fox.render());
}

#[test]
fn substring_with_unbounded_end() {
    let strings = ANSIStrings(vec![Colour::Red.paint("ab"), Colour::Blue.paint("cd")]);
    let tail = strings.substring(1, usize::MAX);
    let rendered = tail.iter().map(|f| f.render()).collect::<String>();
    assert_eq!("\x1b[31mb\x1b[0m\x1b[34mcd\x1b[0m", rendered);
}

#[test]
fn substring_out_of_bounds_start_is_empty() {
    let strings = ANSIStrings(vec![Colour::Red.paint("ab")]);
    assert!(strings.substring(5, 9).is_empty());
    assert!(strings.substring(3, 2).is_empty());
}
