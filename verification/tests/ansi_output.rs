use shell_gui::ansi::{
    ansi_color, apply_sgr, brighten, parse, to_layout_job, xterm256, Color32, Style,
};

fn texts(input: &str) -> Vec<String> {
    parse(input).into_iter().map(|s| s.text).collect()
}

#[test]
fn plain_text_is_one_segment() {
    let s = parse("hello, wörld");
    assert_eq!(s.len(), 1);
    assert_eq!(s[0].text, "hello, wörld");
    assert!(s[0].fg.is_none() && s[0].bg.is_none());
    assert!(!s[0].bold && !s[0].italic && !s[0].underline);
    assert!(parse("").is_empty());
}

#[test]
fn powershell_green_bold() {
    let s = parse("\x1b[32;1mMode\x1b[0m rest");
    assert_eq!(s.len(), 2);
    assert_eq!(s[0].text, "Mode");
    assert_eq!(s[0].fg, Some(Color32::from_rgb(90, 200, 90)));
    assert!(s[0].bold);
    assert_eq!(s[1].text, " rest");
    assert_eq!(s[1].fg, None);
    assert!(!s[1].bold);
}

#[test]
fn bare_sgr_is_a_reset() {
    let s = parse("\x1b[1;4;31ma\x1b[mb");
    assert_eq!(s.len(), 2);
    assert!(s[0].bold && s[0].underline);
    assert_eq!(s[0].fg, Some(Color32::from_rgb(200, 70, 70)));
    assert!(!s[1].bold && !s[1].underline && s[1].fg.is_none());
}

#[test]
fn other_sequences_are_discarded() {
    assert_eq!(texts("a\x1b[2Kb\x1b[10;20Hc"), vec!["abc"]);
    assert_eq!(texts("a\x1b]0;title\x07b"), vec!["ab"]);
    assert_eq!(texts("a\x1b]8;;url\x1b\\b"), vec!["ab"]);
    assert_eq!(texts("a\x1b(Bb"), vec!["aBb"]);
    assert_eq!(texts("a\x1b"), vec!["a"]);
    assert_eq!(texts("a\x1b[12;"), vec!["a"]);
    assert_eq!(texts("a\x1b]never ends"), vec!["a"]);
}

#[test]
fn no_segment_is_empty_and_no_escape_leaks() {
    for input in [
        "\x1b[31m\x1b[32mx\x1b[0m",
        "\x1b[0m\x1b[0m",
        "\x1b\x1b[31mx",
        "x\x1b[;my",
        "\x1b]\x1b[31mz",
    ] {
        for s in parse(input) {
            assert!(!s.text.is_empty());
            assert!(!s.text.contains('\x1b'));
        }
    }
    assert!(parse("\x1b[0m\x1b[0m").is_empty());
}

#[test]
fn a_style_change_without_effect_still_splits() {
    assert_eq!(texts("a\x1b[99mb"), vec!["a", "b"]);
}

#[test]
fn numbers_that_cannot_be_read_are_zero() {
    let s = parse("\x1b[1mx\x1b[99999999999my");
    assert!(s[0].bold);
    assert!(!s[1].bold);
    let s = parse("\x1b[1mx\x1b[?25my");
    assert!(!s[1].bold);
    let s = parse("\x1b[+1mx");
    assert!(s[0].bold);
}

#[test]
fn palette_of_sixteen() {
    assert_eq!(ansi_color(0, false), Some(Color32::from_rgb(40, 40, 40)));
    assert_eq!(ansi_color(3, false), Some(Color32::from_rgb(200, 180, 70)));
    assert_eq!(ansi_color(7, true), Some(Color32::from_rgb(255, 255, 255)));
    assert_eq!(ansi_color(4, true), Some(Color32::from_rgb(130, 170, 255)));
    assert_eq!(ansi_color(8, false), None);
}

#[test]
fn palette_of_two_hundred_and_fifty_six() {
    assert_eq!(xterm256(1), Color32::from_rgb(200, 70, 70));
    assert_eq!(xterm256(9), Color32::from_rgb(255, 110, 110));
    assert_eq!(xterm256(16), Color32::from_rgb(0, 0, 0));
    assert_eq!(xterm256(231), Color32::from_rgb(255, 255, 255));
    assert_eq!(xterm256(16 + 36 + 12 + 3), Color32::from_rgb(95, 135, 175));
    assert_eq!(xterm256(232), Color32::from_rgb(8, 8, 8));
    assert_eq!(xterm256(255), Color32::from_rgb(238, 238, 238));
}

#[test]
fn extended_colours() {
    let mut s = Style::new();
    apply_sgr(&mut s, &[38, 5, 196, 48, 2, 1, 2, 3]);
    assert_eq!(s.fg, Some(Color32::from_rgb(255, 0, 0)));
    assert_eq!(s.bg, Some(Color32::from_rgb(1, 2, 3)));
    apply_sgr(&mut s, &[39, 49]);
    assert_eq!(s, Style::new());
    apply_sgr(&mut s, &[38, 2, 256, 257, 511]);
    assert_eq!(s.fg, Some(Color32::from_rgb(0, 1, 255)));
    let mut t = Style::new();
    apply_sgr(&mut t, &[38, 5]);
    assert_eq!(t, Style::new());
    apply_sgr(&mut t, &[38, 2, 1, 3]);
    assert!(t.bold && t.italic && t.fg.is_none());
}

#[test]
fn attributes_on_and_off() {
    let mut s = Style::new();
    apply_sgr(&mut s, &[1, 3, 4, 97, 107]);
    assert!(s.bold && s.italic && s.underline);
    assert_eq!(s.fg, Some(Color32::from_rgb(255, 255, 255)));
    assert_eq!(s.bg, Some(Color32::from_rgb(255, 255, 255)));
    apply_sgr(&mut s, &[22, 23, 24]);
    assert!(!s.bold && !s.italic && !s.underline);
    apply_sgr(&mut s, &[1, 31, 0]);
    assert_eq!(s, Style::new());
    apply_sgr(&mut s, &[]);
    assert_eq!(s, Style::new());
}

#[test]
fn bold_is_brighter() {
    assert_eq!(brighten(Color32::from_rgb(0, 100, 255)), Color32::from_rgb(127, 177, 255));
}

#[test]
fn layout_of_segments() {
    let white = Color32::from_rgb(210, 210, 210);
    let segments = parse("a\x1b[4;44;3mb\x1b[0;1mc");
    let job = to_layout_job(&segments, white);
    assert_eq!(job.sections.len(), 3);
    let a = &job.sections[0];
    assert_eq!((a.text.as_str(), a.color, a.italics), ("a", white, false));
    assert_eq!(a.background, Color32 { r: 0, g: 0, b: 0, a: 0 });
    assert_eq!(a.underline, None);
    let b = &job.sections[1];
    assert_eq!(b.background, Color32::from_rgb(90, 130, 230));
    assert_eq!(b.underline, Some(white));
    assert!(b.italics);
    let c = &job.sections[2];
    assert_eq!(c.color, Color32::from_rgb(232, 232, 232));
    assert_eq!(c.underline, None);
}
