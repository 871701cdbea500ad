use console_panel::fitting::{ceiling, showing, tall_enough, x, Room, TabBar, Tall, BREATH, ROW, STRIP};
use console_panel::shape;

#[test]
fn a_picture_on_the_ordinary_card_is_what_it_was_measured_at() {
    assert_eq!(showing(461, TabBar::Shown, 2), 272);
}

#[test]
fn what_the_rows_do_not_take_is_the_pictures() {
    let two = showing(461, TabBar::Shown, 2);

    assert_eq!(showing(461, TabBar::Shown, 3), two - ROW);
    assert_eq!(showing(461, TabBar::Shown, 0), two + 2 * ROW);
}

#[test]
fn opening_the_card_out_gives_the_room_to_the_picture() {
    let open = showing(600, TabBar::Hidden, 2);
    let shut = showing(461, TabBar::Shown, 2);

    assert_eq!(open - shut, 600 - 461 + STRIP);
}

#[test]
fn a_card_with_nothing_to_spare_still_draws_something() {
    let nothing = showing(0, TabBar::Shown, 2);
    let little = showing(200, TabBar::Shown, 2);
    let crowded = showing(200, TabBar::Shown, 9);

    assert!(nothing > 0);
    assert!(little > 0);
    assert!(crowded > 0, "more rows than the card holds");
}

#[test]
fn the_room_the_compositor_granted_beats_the_monitor() {
    assert_eq!(x(Room { granted: 800, monitor: 1024 }), shape::part_of(800));
    assert_eq!(x(Room { granted: 0, monitor: 1024 }), shape::part_of(1024), "nothing granted yet");
}

#[test]
fn a_keyboard_taking_the_screen_takes_it_from_the_panel_too() {
    let share = shape::tall_part_of(640);

    assert_eq!(ceiling(Room { granted: 300, monitor: 640 }), 300 - 2 * BREATH);
    assert_eq!(ceiling(Room { granted: 900, monitor: 640 }), share, "its share, where there is room");
    assert_eq!(ceiling(Room { granted: 0, monitor: 640 }), share, "nothing granted yet");
}

#[test]
fn the_ceiling_is_the_height_whatever_the_rows_are() {
    assert_eq!(tall_enough(Tall { frame: 100, row: 60, ceiling: 400 }), 400);
    assert_eq!(tall_enough(Tall { frame: 100, row: 44, ceiling: 400 }), 400);
}

#[test]
fn there_is_room_for_one_row_however_little_room_there_is() {
    assert_eq!(tall_enough(Tall { frame: 100, row: 60, ceiling: 0 }), 160);
}

#[test]
fn a_card_past_the_end_of_the_numbers_stops_there_rather_than_wrapping() {
    assert_eq!(showing(i32::MIN, TabBar::Shown, u32::MAX), 64);
    assert_eq!(tall_enough(Tall { frame: i32::MAX, row: 60, ceiling: 0 }), i32::MAX);
}
