use console_panel::room::{keep, last, none, read, said, Size};

#[test]
fn what_was_written_is_what_is_read() {
    let said = said(Size { wide: 1600, tall: 2400 });

    assert_eq!(read(&said), Size { wide: 1600, tall: 2400 });
}

#[test]
fn a_file_saying_anything_else_is_a_panel_that_has_not_been_up() {
    assert_eq!(read(""), none());
    assert_eq!(read("wide tall"), none());
    assert_eq!(read("1600"), none());
    assert_eq!(read("0 0"), none());
    assert_eq!(read("-1600 -2400"), none());
}

#[test]
fn a_room_too_small_to_be_real_is_not_remembered() {
    assert_eq!(read("1 1"), none());
}

#[test]
fn a_room_is_written_as_two_numbers_on_a_line() {
    assert_eq!(said(Size { wide: 1600, tall: 2400 }), "1600 2400\n".to_string());
}

#[test]
fn the_largest_room_beats_the_last_one() {
    let short = Size { wide: 1024, tall: 300 };
    let tall = Size { wide: 1024, tall: 602 };

    assert_eq!(keep(tall, short), None, "the larger room is already written down");
    assert_eq!(keep(short, tall), Some(tall));
    assert_eq!(keep(none(), tall), Some(tall), "nothing remembered yet");
    assert_eq!(keep(none(), Size { wide: 1, tall: 1 }), None);
}

#[test]
fn a_panel_with_no_note_was_given_no_room() {
    assert_eq!(last(None), none());
    assert_eq!(last(Some("1600 2400\n")), Size { wide: 1600, tall: 2400 });
}
