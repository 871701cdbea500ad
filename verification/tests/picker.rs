use std::path::PathBuf;

use console_panel::picker::{
    after_freeing, after_meanwhile, door, door_of_app, held_by, holder, to_tell, under, where_for_under,
    Again, Alone, Freed, Handover, Meanwhile, Outcome, Took, Turn,
};
use console_panel::picker::{drawn, gone, on_top, taken_over, written, Found, Lock};

fn path(said: String) -> PathBuf {
    PathBuf::from(said)
}

#[test]
fn picker_the_lock_lives_under_the_sessions_own_runtime() {
    assert_eq!(
        path(under(Some("/run/user/1000"), Some("wayland-1"), "picker")),
        PathBuf::from("/run/user/1000/console/picker-wayland-1.lock")
    );
    assert_eq!(path(under(None, Some("wayland-1"), "picker")), PathBuf::from("/tmp/console/picker-wayland-1.lock"));
    assert_eq!(path(under(None, None, "picker")), PathBuf::from("/tmp/console/picker-no-screen-named.lock"));
}

#[test]
fn picker_a_variable_set_to_nothing_has_not_named_a_screen() {
    assert_eq!(path(under(Some(""), Some(""), "picker")), PathBuf::from("/tmp/console/picker-no-screen-named.lock"));
}

#[test]
fn picker_two_screens_under_one_runtime_are_two_locks() {
    let login = under(Some("/run/user/1000"), Some("wayland-1"), "picker");
    let nested = under(Some("/run/user/1000"), Some("wayland-7"), "picker");

    assert_ne!(login, nested);
}

#[test]
fn picker_the_file_says_who_is_holding_it_and_which_door_they_came_out_of() {
    assert_eq!(holder("1234 settings sound"), (1234, "settings sound".to_string()));
    assert_eq!(holder("1234 "), (1234, String::new()));
}

#[test]
fn a_picker_on_its_way_has_a_pid_and_no_door() {
    assert_eq!(holder("1234"), (1234, String::new()));
}

#[test]
fn picker_a_door_named_for_a_tab_it_was_not_given_is_the_name_on_its_own() {
    let name = door("notifications ");

    assert_eq!(name, "notifications");
    assert_eq!(holder(&format!("1234 {name}")), (1234, name));
}

#[test]
fn a_file_saying_nothing_names_no_one() {
    assert_eq!(holder(""), (0, String::new()));
    assert_eq!(holder("what"), (0, String::new()));
}

#[test]
fn an_apps_lock_is_named_for_the_app() {
    assert_eq!(
        path(where_for_under(Some("/run/user/1000/"), Some("wayland-1"), "files")),
        PathBuf::from("/run/user/1000/console/app-files-wayland-1.lock")
    );
}

#[test]
fn an_app_asked_for_again_is_named_by_everything_it_was_asked_with() {
    assert_eq!(door_of_app("viewer", &vec!["a.jpg".to_string(), "b c".to_string()]), "viewer a.jpg b c");
    assert_eq!(door_of_app("files", &Vec::new()), "files");
}

#[test]
fn a_door_that_only_opens_asked_twice_is_turned_away() {
    assert_eq!(held_by("4321 settings", 1, "settings", Again::Keeps, Handover::Now), Turn::Answer(Alone::No));
    assert_eq!(held_by("4321 settings", 1, "settings", Again::Closes, Handover::Now), Turn::Free(4321));
    assert_eq!(held_by("4321 menu", 1, "settings", Again::Keeps, Handover::OnceDrawn), Turn::HoldOnceDrawn(4321));
    assert_eq!(held_by("4321", 1, "settings", Again::Keeps, Handover::Now), Turn::WaitMeanwhile);
    assert_eq!(held_by("1 menu", 1, "settings", Again::Keeps, Handover::Now), Turn::Answer(Alone::No));
    assert_eq!(held_by("nobody", 1, "settings", Again::Keeps, Handover::Now), Turn::Answer(Alone::No));
}

#[test]
fn what_waiting_and_asking_came_to_is_what_is_done_next() {
    assert_eq!(after_meanwhile(Meanwhile::Rendered, 9, false, Handover::Now), Turn::Answer(Alone::No));
    assert_eq!(after_meanwhile(Meanwhile::Free, 9, false, Handover::Now), Turn::Keep);
    assert_eq!(after_meanwhile(Meanwhile::Stuck, 9, false, Handover::OnceDrawn), Turn::HoldOnceDrawn(9));
    assert_eq!(after_freeing(Outcome::RanOut, false), Freed::TurnedAway);
    assert_eq!(after_freeing(Outcome::Happened, true), Freed::PutAway);
    assert_eq!(after_freeing(Outcome::Happened, false), Freed::Keep);
}

#[test]
fn only_a_picker_somebody_holds_is_told_to_go() {
    assert_eq!(to_tell(Took::It, "4321 menu"), None);
    assert_eq!(to_tell(Took::Not, "4321 menu"), Some(4321));
    assert_eq!(to_tell(Took::Not, "-3 menu"), None);
    assert_eq!(to_tell(Took::Not, ""), None);
}

#[test]
fn what_a_picker_writes_in_the_lock_is_read_back_as_its_pid_and_its_door() {
    assert_eq!(written(1234, "settings sound"), "1234 settings sound");
    assert_eq!(holder(&written(1234, "settings sound")), (1234, "settings sound".to_string()));
    assert_eq!(holder(&written(1234, "")), (1234, String::new()));
    assert_eq!(drawn(Lock::Acquired, "menu"), Some("menu".to_string()));
    assert_eq!(drawn(Lock::AfterDrawing(77), "menu"), None);
    assert_eq!(gone(Lock::Acquired), Some(String::new()));
    assert_eq!(gone(Lock::AfterDrawing(77)), None);
    assert_eq!(taken_over(Lock::AfterDrawing(77)), Some(77));
    assert_eq!(taken_over(Lock::Acquired), None);
}

fn found(name: &str, held: bool, when: u64) -> Found {
    Found { name: name.to_string(), held, when }
}

#[test]
fn the_app_on_top_is_the_one_held_on_this_screen_that_came_up_last() {
    let beside = vec![
        found("app-files-wayland-1.lock", true, 5),
        found("app-pictures-wayland-1.lock", true, 9),
        found("app-music-wayland-2.lock", true, 20),
        found("app-shelf-wayland-1.lock", false, 30),
        found("picker-wayland-1.lock", true, 40),
    ];

    assert_eq!(on_top("picker-wayland-1.lock", &beside), Some(1));
    assert_eq!(on_top("picker-wayland-2.lock", &beside), Some(2));
    assert_eq!(on_top("picker-wayland-3.lock", &beside), None);
    assert_eq!(on_top("menu-wayland-1.lock", &beside), None, "a lock that is not the pickers' names no screen");
}

#[test]
fn two_apps_up_at_the_same_moment_are_told_apart_by_name() {
    let beside = vec![found("app-b-wayland-1.lock", true, 9), found("app-a-wayland-1.lock", true, 9)];

    assert_eq!(on_top("picker-wayland-1.lock", &beside), Some(0));
    assert_eq!(on_top("picker-wayland-1.lock", &Vec::new()), None);
}
