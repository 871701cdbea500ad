use console_panel::frames::{tell, woken, FrameReceived, Notice, Woken};
use console_panel::page::{Aside, Row, Same};
use console_panel::picker::{holder, where_for_under, where_under};
use console_panel::pictures::{keyed, make_at, read, unkeyed, written, Picture, Side};

fn a_picture(of: &str, side: u32) -> Picture {
    Picture {
        of: of.to_string(),
        width: side,
        height: side,
        stride: side * 4,
        pixels: vec![3; (side * side * 4) as usize],
    }
}

#[test]
fn a_store_holds_as_many_pictures_as_were_written_each_where_its_pixels_are() {
    let pictures = vec![a_picture("/a.png", 2), a_picture("/b c.png", 3)];
    let bytes = written(&pictures);
    let held = read(&bytes).expect("a store");

    assert_eq!(held.len(), 2);
    for picture in &pictures {
        let at = held.get(&picture.of).expect("the picture is held");
        assert_eq!(at.in_store(&bytes), Some(&picture.pixels[..]));
    }
}

#[test]
fn a_key_is_read_back_as_the_file_and_side_it_names_and_names_no_other() {
    let key = keyed("/a b/c.png", Side(64));

    assert_eq!(unkeyed(&key), Some(("/a b/c.png".to_string(), Side(64))));
    assert_ne!(keyed("/x.png", Side(32)), keyed("/x.png", Side(64)));
    assert_ne!(keyed("/x.png", Side(32)), keyed("/y.png", Side(32)));
}

#[test]
fn asking_the_maker_again_for_the_same_pictures_asks_for_nothing() {
    let wanted = vec!["/a.png".to_string(), "/b.png".to_string(), "/a.png".to_string()];
    let mut asked = Vec::new();

    assert!(make_at(&wanted, Side(32), &mut asked).is_some());
    assert_eq!(make_at(&wanted, Side(32), &mut asked), None);
}

#[test]
fn a_holder_with_any_pid_is_read_back() {
    assert_eq!(holder("-5 launcher"), (-5, "launcher".to_string()));
    assert_eq!(holder("2147483647 files"), (i32::MAX, "files".to_string()));
}

#[test]
fn an_app_lock_sits_beside_the_pickers_and_no_two_apps_share_one() {
    let picker = where_under(Some("/run/user/1000"), Some("wayland-1"));
    let mine = where_for_under(Some("/run/user/1000"), Some("wayland-1"), "files");
    let yours = where_for_under(Some("/run/user/1000"), Some("wayland-1"), "music");

    assert_eq!(picker, "/run/user/1000/console/picker-wayland-1.lock");
    assert_eq!(mine, "/run/user/1000/console/app-files-wayland-1.lock");
    assert_ne!(mine, yours);
}

#[test]
fn the_notices_told_are_the_notices_heard() {
    let bytes = [tell(Notice::Rows), tell(Notice::Closed), tell(Notice::Rows)];

    assert_eq!(
        woken(Woken::default(), &bytes),
        Woken { frame: FrameReceived::No, card: FrameReceived::No, rows: FrameReceived::Yes }
    );
}

#[test]
fn a_copy_of_a_row_looks_like_the_row() {
    let row = Row::new("Firefox", Aside("web")).selectable("firefox");

    assert_eq!(row.looks_like(&row.clone()), Same::Yes);
}
