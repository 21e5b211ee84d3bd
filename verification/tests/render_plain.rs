// With coloring forced off, the emphasis decoration is empty and a rendered
// line must be exactly the optional number prefix and the three segments.

use rgrep::render::render;
use rgrep::scanner::{process_line, MatchedLine};

#[test]
fn rendered_line_round_trips_without_color() {
    colored::control::set_override(false);
    let m = process_line(0, &b"Hello World".to_vec(), &b"World".to_vec(), false, false)
        .expect("the line matches");
    let out = render(&m);
    assert_eq!(out, b"Hello World".to_vec());
    colored::control::unset_override();
}

#[test]
fn rendered_line_has_number_prefix_without_color() {
    colored::control::set_override(false);
    let m = process_line(0, &b"Hello World".to_vec(), &b"World".to_vec(), true, false)
        .expect("the line matches");
    let out = render(&m);
    assert_eq!(out, b"1 Hello World".to_vec());
    colored::control::unset_override();
}

#[test]
fn rendered_line_has_no_leading_digit_when_numbering_is_off() {
    colored::control::set_override(false);
    let m = process_line(11, &b"a 0 b".to_vec(), &b"0".to_vec(), false, false)
        .expect("the line matches");
    let out = render(&m);
    assert_eq!(out, b"a 0 b".to_vec());
    assert!(!out[0].is_ascii_digit());
    colored::control::unset_override();
}

#[test]
fn multi_digit_number_prefix() {
    colored::control::set_override(false);
    let m = process_line(119, &b"xyz".to_vec(), &b"y".to_vec(), true, false)
        .expect("the line matches");
    let out = render(&m);
    assert_eq!(out, b"120 xyz".to_vec());
    colored::control::unset_override();
}

#[test]
fn render_uses_the_fields_as_given() {
    colored::control::set_override(false);
    let m = MatchedLine {
        number: Some(7),
        before: b"L".to_vec(),
        matched: b"M".to_vec(),
        after: b"R".to_vec(),
    };
    assert_eq!(render(&m), b"7 LMR".to_vec());
    colored::control::unset_override();
}
