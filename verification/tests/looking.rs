use console_panel::frames::{Current, Held, Looking, Room};

const ROOM: Room = Room { wide: 80, tall: 80 };

fn a_frame(red: u8) -> Vec<u8> {
    vec![red, 0, 0, 255, red, 0, 0, 255]
}

fn held(looking: &Looking<Vec<u8>>) -> Option<Vec<u8>> {
    match &looking.looked {
        Some(looked) => match &looked.held {
            Held::Decoded(pixels) => Some(pixels.clone()),
            Held::Decoding | Held::Failed => None,
        },
        None => None,
    }
}

#[test]
fn the_first_ask_is_answered_at_once_with_nothing_yet_and_what_lands_is_handed_out() {
    let mut looking: Looking<Vec<u8>> = Looking::new();

    assert_eq!(looking.current("/nowhere/a.png", ROOM), Current::Decode, "the first ask is answered at once, with nothing yet");
    assert_eq!(looking.current("/nowhere/a.png", ROOM), Current::Waiting, "and asked again it is not decoded twice");
    assert_eq!(looking.room("/nowhere/a.png"), Some(ROOM));
    assert_eq!(looking.room("/nowhere/b.png"), None);

    assert!(looking.landed("/nowhere/a.png", Held::Decoded(a_frame(1))), "the loop is told the card changed");
    assert_eq!(looking.current("/nowhere/a.png", ROOM), Current::Ready);
    assert_eq!(held(&looking), Some(a_frame(1)));
}

#[test]
fn a_film_s_frames_are_heard_and_a_late_still_does_not_cover_them() {
    let mut looking: Looking<Vec<u8>> = Looking::new();
    let film = "/nowhere/a-film.mkv";

    assert_eq!(looking.current(film, ROOM), Current::Decode);
    assert!(looking.put(film, a_frame(200)), "a frame put is a frame the loop hears about");
    assert_eq!(looking.current(film, ROOM), Current::Ready);
    assert_eq!(held(&looking), Some(a_frame(200)));

    assert!(!looking.landed(film, Held::Failed));
    assert_eq!(held(&looking), Some(a_frame(200)), "a late still does not cover a frame");

    assert!(!looking.put("/nowhere/another.mkv", a_frame(9)));
    assert_eq!(held(&looking), Some(a_frame(200)), "a frame of a film nobody is looking at is dropped");
}

#[test]
fn asking_for_another_picture_forgets_the_one_before() {
    let mut looking: Looking<Vec<u8>> = Looking::new();

    looking.current("/nowhere/a.png", ROOM);
    assert!(looking.landed("/nowhere/a.png", Held::Decoded(a_frame(1))));

    assert_eq!(looking.current("/nowhere/b.png", ROOM), Current::Decode);
    assert!(!looking.landed("/nowhere/a.png", Held::Decoded(a_frame(2))), "a decoding of what was forgotten is dropped");
    assert_eq!(held(&looking), None);
}

#[test]
fn a_picture_is_decoded_sharper_only_for_more_room_and_only_that_decoding_is_taken() {
    let mut looking: Looking<Vec<u8>> = Looking::new();
    let at = "/nowhere/a.png";
    let bigger = Room { wide: 160, tall: 80 };

    looking.current(at, ROOM);
    assert!(!looking.sharpened(at, bigger), "nothing to sharpen while it is still being decoded");
    assert!(looking.landed(at, Held::Decoded(a_frame(1))));

    assert!(!looking.sharpened(at, ROOM), "no sharper for the same room");
    assert!(looking.sharpened(at, bigger));
    assert!(!looking.sharper(at, ROOM, a_frame(3)), "a decoding for another room is dropped");
    assert_eq!(held(&looking), Some(a_frame(1)));
    assert!(looking.sharper(at, bigger, a_frame(2)));
    assert_eq!(held(&looking), Some(a_frame(2)));
}

#[test]
fn one_file_spelled_two_ways_is_one_picture() {
    let mut looking: Looking<Vec<u8>> = Looking::new();

    assert_eq!(looking.current("/nowhere//a.png", ROOM), Current::Decode);
    assert_eq!(looking.current("/nowhere/./a.png", ROOM), Current::Waiting, "the same file is not decoded again");
    assert!(looking.landed("/nowhere/a.png/", Held::Decoded(a_frame(4))));
    assert_eq!(looking.room("/nowhere/a.png"), Some(ROOM));
    assert_eq!(looking.room("nowhere/a.png"), None, "a path from here is another file");
    assert_eq!(looking.room("./nowhere/a.png"), None);
}
