use console_panel::marks::named;
use console_panel::telling::{
    every, reachable, read, said, Bare, Line, Offers, Out, Reachable, Scrolls, Spot, Standing, Told,
    OFFERED,
};

fn spot(name: &str, at: (i32, i32), big: (i32, i32)) -> Spot {
    Spot { name: name.to_string(), at, big, scrolls: Scrolls::No }
}

fn scrolling(name: &str, at: (i32, i32), big: (i32, i32)) -> Spot {
    Spot { name: name.to_string(), at, big, scrolls: Scrolls::Yes }
}

fn told() -> Told {
    Told {
        panel: "viewer-panel".to_string(),
        tab: "Looking".to_string(),
        out: Out::No,
        room: (1024, 640),
        spots: vec![spot("shut", (954, 14), (56, 44))],
        lines: vec![
            Line {
                at: 0,
                says: String::new(),
                aside: String::new(),
                offers: Offers::Yes,
                bare: Bare::Yes,
                standing: Standing::No,
                spots: Vec::new(),
            },
            Line {
                at: 1,
                says: "beach.jpg".to_string(),
                aside: "2 of 7".to_string(),
                offers: Offers::Yes,
                bare: Bare::No,
                standing: Standing::Beside,
                spots: vec![spot("else", (900, 300), (40, 30))],
            },
        ],
    }
}

#[test]
fn what_was_drawn_survives_the_trip_through_a_file() {
    let said = said(&told());

    assert_eq!(read(&said), Ok(told()));
}

#[test]
fn a_run_is_read_back_as_the_draws_it_was() {
    let said = said(&told());
    let run = format!("{said}\n{said}\n");

    assert_eq!(every(&run).map(|every| every.len()), Ok(2));
}

#[test]
fn a_line_that_is_not_this_files_own_is_said_rather_than_skipped() {
    assert!(every("{\"panel\":\"x\"}").is_err());
    assert!(read("not json at all").is_err());
    assert_eq!(read("{\"panel\":\"x\"}"), Err("no room".to_string()));
    assert_eq!(read("{\"room\":[1,2]}"), Err("no lines".to_string()));
}

#[test]
fn a_mark_is_found_by_the_name_it_is_drawn_under() {
    let told = told();

    let shut = told.wearing("shut").expect("the way out is drawn");
    let middle = shut.middle();
    let line = told.line_saying("beach.jpg").expect("the row is drawn");
    let worn = line.wearing("else");

    assert_eq!(middle, (982, 36));
    assert!(worn.is_some());
    assert_eq!(told.wearing("nothing-is-called-this"), None);
    assert_eq!(told.wearing("else"), Some(&spot("else", (900, 300), (40, 30))));
    assert_eq!(told.every_spot().len(), 2);
}

#[test]
fn a_mark_inside_the_screen_can_be_reached_and_one_hanging_off_it_cannot() {
    let room = (1024, 640);
    assert_eq!(reachable(&spot("shut", (954, 14), (56, 44)), room), Reachable::Yes);
    assert_eq!(reachable(&spot("shut", (0, 0), (1024, 640)), room), Reachable::Yes);
}

#[test]
fn the_fault_this_was_written_for_is_one_this_can_see() {
    let room = (1024, 640);
    assert_eq!(reachable(&spot("shut", (982, 14), (56, 44)), room), Reachable::No);
    assert_eq!(reachable(&spot("shut", (-4, 14), (56, 44)), room), Reachable::No);
    assert_eq!(reachable(&spot("shut", (900, 620), (56, 44)), room), Reachable::No);
}

#[test]
fn a_mark_the_thumb_can_scroll_to_is_a_mark_a_hand_can_reach() {
    let room = (1024, 640);
    assert_eq!(reachable(&scrolling("else", (865, 4805), (44, 29)), room), Reachable::Yes);
    assert_eq!(reachable(&spot("else", (865, 4805), (44, 29)), room), Reachable::No);
}

#[test]
fn scrolling_does_not_excuse_a_mark_off_the_side() {
    let room = (1024, 640);
    assert_eq!(reachable(&scrolling("else", (1000, 300), (44, 29)), room), Reachable::No);
    assert_eq!(reachable(&scrolling("else", (-4, 300), (44, 29)), room), Reachable::No);
}

#[test]
fn a_mark_with_no_size_is_a_mark_nothing_can_land_on() {
    assert_eq!(reachable(&spot("else", (10, 10), (0, 30)), (1024, 640)), Reachable::No);
    assert_eq!(reachable(&spot("else", (10, 10), (40, 0)), (1024, 640)), Reachable::No);
}

#[test]
fn a_row_that_offers_something_and_wears_nothing_is_the_fault_being_looked_for() {
    let told = told();

    for line in &told.lines {
        let worn = line.wearing(named::ELSE);
        let answered = worn.is_some() || line.bare == Bare::Yes;

        assert!(answered, "row {} offers something a finger cannot reach", line.at);
    }
}

#[test]
fn every_part_a_hand_is_offered_is_one_the_walk_looks_for() {
    for name in [named::TAB, named::SHUT, named::MORE, named::STEP, named::ELSE, named::PRESS, named::ANSWER] {
        assert!(OFFERED.contains(&name), "{name} is drawn to be pressed and never looked for");
    }
}

#[test]
fn a_draw_is_written_as_one_line_of_json() {
    let said = said(&told());

    assert!(said.starts_with("{\"panel\":\"viewer-panel\",\"tab\":\"Looking\",\"out\":false,\"room\":[1024,640],"));
    assert!(!said.contains('\n'));
}

#[test]
fn words_that_json_escapes_are_written_escaped_and_read_back_as_they_were() {
    let odd = Told {
        panel: "a \"quoted\" \\ panel\u{1}\u{7f}é".to_string(),
        tab: "line\nbreak\ttab".to_string(),
        out: Out::Yes,
        room: (-5, 0),
        spots: vec![scrolling("", (i32::MIN, i32::MAX), (0, -1))],
        lines: vec![Line {
            at: usize::MAX,
            says: "\r\u{8}\u{c}".to_string(),
            aside: String::new(),
            offers: Offers::No,
            bare: Bare::Yes,
            standing: Standing::On,
            spots: Vec::new(),
        }],
    };
    let written = said(&odd);

    assert!(written.contains(r#""panel":"a \"quoted\" \\ panel\u0001"#));
    assert!(written.contains(r#""tab":"line\nbreak\ttab""#));
    assert!(written.contains(r#""says":"\r\b\f""#));
    assert_eq!(read(&written), Ok(odd));
}
