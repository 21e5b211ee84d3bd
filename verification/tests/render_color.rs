// With coloring forced on, the emphasis decoration is real: the rendered line
// carries escape sequences around the matched segment, and the segments
// around the decoration stand unchanged.

use rgrep::render::render;
use rgrep::scanner::process_line;

#[test]
fn rendered_line_emphasizes_the_match() {
    colored::control::set_override(true);
    let m = process_line(0, &b"Hello World".to_vec(), &b"World".to_vec(), true, false)
        .expect("the line matches");
    let out = render(&m);
    assert_eq!(&out[..8], b"1 Hello ");
    assert!(out.contains(&27u8), "an escape sequence marks the emphasis");
    let world = b"World";
    assert!(
        out.windows(world.len()).any(|w| w == world),
        "the matched text stands inside the decoration"
    );
    assert_ne!(out, b"1 Hello World".to_vec());
    colored::control::unset_override();
}
