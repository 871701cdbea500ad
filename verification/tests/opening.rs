use console_panel::opening::{running, Came, Running};

#[test]
fn nothing_is_running_until_something_starts_it() {
    assert_eq!(running(false), Running::No);
}

#[test]
fn a_stopwatch_held_is_an_opening_being_timed() {
    assert_eq!(running(true), Running::Yes);
}

#[test]
fn where_an_opening_came_from_is_what_was_said() {
    let came = Came("bar");

    assert_eq!(came.0, "bar");
    assert_eq!(came, Came("bar"));
}
