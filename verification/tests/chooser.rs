use std::path::PathBuf;

use console_panel::chooser::{door, holder, under};

fn path(said: String) -> PathBuf {
    PathBuf::from(said)
}

#[test]
fn chooser_the_lock_lives_under_the_sessions_own_runtime() {
    assert_eq!(
        path(under(Some("/run/user/1000"), Some("wayland-1"))),
        PathBuf::from("/run/user/1000/console/chooser-wayland-1.lock")
    );
    assert_eq!(path(under(None, Some("wayland-1"))), PathBuf::from("/tmp/console/chooser-wayland-1.lock"));
    assert_eq!(path(under(None, None)), PathBuf::from("/tmp/console/chooser-no-screen-named.lock"));
}

#[test]
fn chooser_a_variable_set_to_nothing_has_not_named_a_screen() {
    assert_eq!(path(under(Some(""), Some(""))), PathBuf::from("/tmp/console/chooser-no-screen-named.lock"));
}

#[test]
fn chooser_two_screens_under_one_runtime_are_two_locks() {
    let login = under(Some("/run/user/1000"), Some("wayland-1"));
    let nested = under(Some("/run/user/1000"), Some("wayland-7"));

    assert_ne!(login, nested);
}

#[test]
fn chooser_the_file_says_who_is_holding_it_and_which_door_they_came_out_of() {
    assert_eq!(holder("1234 settings sound"), (1234, "settings sound".to_string()));
    assert_eq!(holder("1234 "), (1234, String::new()));
}

#[test]
fn a_chooser_on_its_way_has_a_pid_and_no_door() {
    assert_eq!(holder("1234"), (1234, String::new()));
}

#[test]
fn chooser_a_door_named_for_a_tab_it_was_not_given_is_the_name_on_its_own() {
    let name = door("notices ");

    assert_eq!(name, "notices");
    assert_eq!(holder(&format!("1234 {name}")), (1234, name));
}

#[test]
fn a_file_saying_nothing_names_nobody() {
    assert_eq!(holder(""), (0, String::new()));
    assert_eq!(holder("what"), (0, String::new()));
}
