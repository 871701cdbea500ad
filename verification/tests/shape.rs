use console_panel::shape::{part_of, tall_part_of};

#[test]
fn the_same_share_of_either_way_up() {
    assert_eq!(part_of(1024), 952);
    assert_eq!(part_of(640), 595);
}

#[test]
fn no_room_is_no_panel_rather_than_a_negative_one() {
    assert_eq!(part_of(0), 0);
    assert_eq!(tall_part_of(0), 0);
}

#[test]
fn the_same_height_whatever_is_being_shown() {
    assert_eq!(tall_part_of(640), 512);
    assert_eq!(tall_part_of(1024), 819);
}

#[test]
fn a_share_is_the_nearest_whole_point() {
    assert_eq!(part_of(10), 9);
    assert_eq!(part_of(50), 47);
    assert_eq!(tall_part_of(-5), -4);
    assert_eq!(part_of(i32::MAX), 1_997_159_792);
}
