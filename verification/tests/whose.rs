use console_panel::whose::{name, named, nobody, program_name, NOBODY};

#[test]
fn what_was_said_is_what_is_read() {
    let held = named("settings-panel");

    assert_eq!(name(held, "console-panel".to_string()), "settings-panel".to_string());
}

#[test]
fn a_name_taken_back_is_the_programs_own_again() {
    let held = nobody();

    assert_eq!(name(held, "launcher".to_string()), "launcher".to_string());
}

#[test]
fn a_name_that_says_nothing_is_no_name() {
    assert_eq!(named(""), None);
    assert_eq!(program_name(Some("")), NOBODY.to_string());
    assert_eq!(program_name(None), NOBODY.to_string());
    assert_eq!(program_name(Some("bar")), "bar".to_string());
}

#[test]
fn one_opening_does_not_leave_its_name_behind() {
    let _held = named("launcher");
    let held = nobody();
    let argv0 = program_name(Some("console-panel-tests"));

    assert_eq!(name(held, argv0.clone()), argv0, "the next opening would draw under the last one's name");
}

#[test]
fn a_name_that_says_nothing_is_not_a_name() {
    let held = named("");
    let argv0 = program_name(Some("console-panel-tests"));

    assert_eq!(name(held, argv0.clone()), argv0);
}

#[test]
fn the_program_is_what_a_panel_drawing_itself_is_called() {
    for argv0 in [program_name(Some("console-panel-tests")), program_name(Some("")), program_name(None)] {
        assert!(!argv0.is_empty(), "a surface with no namespace is one nothing can find");
        assert!(!argv0.contains('/'), "the namespace is a name, not a path");
    }
}
