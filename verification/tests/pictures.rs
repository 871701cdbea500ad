use console_panel::pictures::{
    keyed, make, make_at, missing, read, unkeyed, written, Picture, Side, MAGIC, SIDE,
};

fn a_picture(of: &str, side: u32) -> Picture {
    Picture {
        of: of.to_string(),
        width: side,
        height: side,
        stride: side * 4,
        pixels: vec![7; (side * side * 4) as usize],
    }
}

#[test]
fn a_store_says_where_each_picture_is_and_how_big() {
    let pictures = vec![a_picture("/usr/share/icons/one.svg", 32), a_picture("/two.png", 16)];
    let bytes = written(&pictures);
    let held = read(&bytes).expect("a written store reads back");

    assert_eq!(held.len(), 2);
    let one = held.get("/usr/share/icons/one.svg").expect("the first picture");
    assert_eq!((one.width, one.height, one.stride), (32, 32, 128));
    assert_eq!(one.in_store(&bytes), Some(&vec![7u8; 32 * 32 * 4][..]));
    let two = held.get("/two.png").expect("the second picture");
    assert_eq!(two.in_store(&bytes), Some(&vec![7u8; 16 * 16 * 4][..]));
}

#[test]
fn half_a_store_is_no_store_rather_than_half_the_pictures() {
    let bytes = written(&[a_picture("/one.svg", 32)]);

    for cut in [0, 4, MAGIC.len(), MAGIC.len() + 4, bytes.len() - 1] {
        assert!(read(&bytes[..cut]).is_none(), "a store cut at {cut} was read as a store");
    }
}

#[test]
fn a_file_that_is_not_this_file_is_not_read_at_all() {
    assert!(read(b"not this at all").is_none());
    assert!(read(b"panel-pictures 2\n").is_none());
}

#[test]
fn a_picture_that_points_outside_the_store_is_refused() {
    let mut bytes = written(&[a_picture("/one.svg", 32)]);
    let far = (1_000_000u32).to_le_bytes();
    for (slot, byte) in bytes.iter_mut().rev().skip(32 * 32 * 4 + 4).take(4).zip(far.iter().rev()) {
        *slot = *byte;
    }

    assert!(read(&bytes).is_none());
}

#[test]
fn a_picture_whose_rows_do_not_fit_its_own_pixels_is_refused() {
    let mut picture = a_picture("/one.svg", 32);
    picture.stride = 4096;
    let bytes = written(&[picture]);

    assert!(read(&bytes).is_none());
}

#[test]
fn an_empty_store_is_a_store_with_nothing_in_it() {
    let bytes = written(&[]);
    let held = read(&bytes).expect("an empty store is still a store");

    assert!(held.is_empty());
    assert_eq!(bytes.len(), MAGIC.len() + 4);
}

#[test]
fn a_later_picture_of_one_name_stands_over_the_earlier() {
    let bytes = written(&[a_picture("/one.svg", 32), a_picture("/one.svg", 16)]);
    let held = read(&bytes).expect("a store");

    assert_eq!(held.len(), 1);
    assert_eq!(held.get("/one.svg").map(|found| found.width), Some(16));
}

#[test]
fn a_picture_is_called_by_its_side_and_its_file() {
    assert_eq!(keyed("/usr/share/icons/one.svg", Side(32)), "32 /usr/share/icons/one.svg");
    assert_eq!(unkeyed("32 /a b.png"), Some(("/a b.png".to_string(), Side(32))));
    assert_eq!(unkeyed("big /a.png"), None);
    assert_eq!(unkeyed("/a.png"), None);
}

#[test]
fn only_what_the_store_does_not_hold_is_missing_and_each_is_asked_for_once() {
    let bytes = written(&[Picture { of: "32 /one.svg".to_string(), ..a_picture("", 32) }]);
    let held = read(&bytes).expect("a store");
    let wanted = vec!["/one.svg".to_string(), "/two.svg".to_string()];

    assert_eq!(missing(&wanted, Some(&held)), vec!["/two.svg".to_string()]);
    assert_eq!(missing(&wanted, None), wanted);

    let mut asked: Vec<String> = Vec::new();
    let first = make(&wanted, &mut asked).expect("something to make");
    assert_eq!(first, vec![SIDE.to_string(), "32".to_string(), "/one.svg".to_string(), "/two.svg".to_string()]);
    assert_eq!(make(&wanted, &mut asked), None, "a second row wanting the same picture starts no second maker");
    assert_eq!(
        make_at(&wanted, Side(64), &mut asked),
        Some(vec![SIDE.to_string(), "64".to_string(), "/one.svg".to_string(), "/two.svg".to_string()])
    );
}
