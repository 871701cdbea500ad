use console_panel::marks::{AFTER, BEFORE, ELSE, HIDDEN, LESS, MORE, SHUT};

#[test]
fn no_two_marks_are_the_same_mark() {
    let mut every = [BEFORE, AFTER, SHUT, LESS, MORE, ELSE, HIDDEN].to_vec();
    every.sort_unstable();
    let mut once = every.clone();
    once.dedup();

    assert_eq!(once, every, "two things a hand is offered drawn with one glyph");
}
