use rgrep::scanner::{scan, LineOutcome, MatchedLine, ScanEvent};

fn text(s: &str) -> LineOutcome {
    LineOutcome::Text(s.as_bytes().to_vec())
}

fn expect_match(e: &ScanEvent) -> &MatchedLine {
    match e {
        ScanEvent::Matched(m) => m,
        ScanEvent::ReadFailure(k) => panic!("unexpected read failure at {}", k),
    }
}

#[test]
fn match_without_number() {
    let lines = vec![text("Hello World"), text("goodbye")];
    let events = scan(&lines, &b"World".to_vec(), false, false);
    assert_eq!(events.len(), 1);
    let m = expect_match(&events[0]);
    assert_eq!(m.number, None);
    assert_eq!(m.before, b"Hello ".to_vec());
    assert_eq!(m.matched, b"World".to_vec());
    assert_eq!(m.after, b"".to_vec());
}

#[test]
fn match_with_number() {
    let lines = vec![text("Hello World"), text("goodbye")];
    let events = scan(&lines, &b"World".to_vec(), true, false);
    assert_eq!(events.len(), 1);
    let m = expect_match(&events[0]);
    assert_eq!(m.number, Some(1));
    assert_eq!(m.before, b"Hello ".to_vec());
    assert_eq!(m.matched, b"World".to_vec());
    assert_eq!(m.after, b"".to_vec());
}

#[test]
fn folded_match_keeps_original_case() {
    let lines = vec![text("FOO bar")];
    let events = scan(&lines, &b"foo".to_vec(), false, true);
    assert_eq!(events.len(), 1);
    let m = expect_match(&events[0]);
    assert_eq!(m.before, b"".to_vec());
    assert_eq!(m.matched, b"FOO".to_vec());
    assert_eq!(m.after, b" bar".to_vec());
}

#[test]
fn unfolded_match_is_exact_case() {
    let lines = vec![text("FOO bar")];
    let events = scan(&lines, &b"foo".to_vec(), false, false);
    assert_eq!(events.len(), 0);
}

#[test]
fn only_first_occurrence_marked() {
    let lines = vec![text("aa aa")];
    let events = scan(&lines, &b"aa".to_vec(), false, false);
    assert_eq!(events.len(), 1);
    let m = expect_match(&events[0]);
    assert_eq!(m.before, b"".to_vec());
    assert_eq!(m.matched, b"aa".to_vec());
    assert_eq!(m.after, b" aa".to_vec());
}

#[test]
fn empty_source_no_output() {
    let lines: Vec<LineOutcome> = Vec::new();
    let events = scan(&lines, &b"x".to_vec(), true, true);
    assert_eq!(events.len(), 0);
}

#[test]
fn read_failure_does_not_stop_the_scan() {
    let lines = vec![
        text("a match here"),
        LineOutcome::Failed,
        text("a match there"),
    ];
    let events = scan(&lines, &b"match".to_vec(), true, false);
    assert_eq!(events.len(), 3);
    let first = expect_match(&events[0]);
    assert_eq!(first.number, Some(1));
    assert_eq!(first.before, b"a ".to_vec());
    assert_eq!(events[1], ScanEvent::ReadFailure(1));
    let third = expect_match(&events[2]);
    assert_eq!(third.number, Some(3));
    assert_eq!(third.after, b" there".to_vec());
}

#[test]
fn numbers_are_one_based_per_position() {
    let lines = vec![text("nothing"), text("needle in line two")];
    let events = scan(&lines, &b"needle".to_vec(), true, false);
    assert_eq!(events.len(), 1);
    let m = expect_match(&events[0]);
    assert_eq!(m.number, Some(2));
}

#[test]
fn pattern_longer_than_line_never_matches() {
    let lines = vec![text("ab")];
    let events = scan(&lines, &b"abc".to_vec(), false, false);
    assert_eq!(events.len(), 0);
}

#[test]
fn folding_applies_to_the_line_side_too() {
    let lines = vec![text("foo bar")];
    let events = scan(&lines, &b"FOO".to_vec(), false, true);
    assert_eq!(events.len(), 1);
    let m = expect_match(&events[0]);
    assert_eq!(m.matched, b"foo".to_vec());
}

#[test]
fn segments_reassemble_the_line() {
    let line = "one needle, two needles";
    let lines = vec![text(line)];
    let events = scan(&lines, &b"needle".to_vec(), false, false);
    assert_eq!(events.len(), 1);
    let m = expect_match(&events[0]);
    let mut whole = m.before.clone();
    whole.extend_from_slice(&m.matched);
    whole.extend_from_slice(&m.after);
    assert_eq!(whole, line.as_bytes().to_vec());
}
