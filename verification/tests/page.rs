use console_panel::page::{
    find, lettered, nudged, standing, under, walked, Active, Aside, Bar, Beside, ButtonStyle, Cell, Ends, Face,
    Holds, Nudged, Picture, Placed, Press, Row, Same, Step, Watch, Wears, NUMBERS, NOW, REST,
};
use console_panel::icons::Icon;

fn press(icon: Icon, now: Active) -> Press {
    Press { face: Face::Glyph(icon), now, chief: false, placed: Placed::Among, style: ButtonStyle::Gray }
}

fn strip() -> Vec<Press> {
    vec![press(Icon::Shuffle, Active::No), press(Icon::Pause, Active::No), press(Icon::Repeat, Active::Yes)]
}

#[test]
fn a_heading_stands_over_every_run_of_one_letter_and_only_over_the_first_of_it() {
    let apple = Row::new("Apple.png", Aside(""));
    let apricot = Row::new("apricot.png", Aside(""));
    let boat = Row::new("boat.png", Aside(""));

    let lettered = lettered(vec![apple, apricot, boat]);
    let says: Vec<&str> = lettered.iter().map(|row| row.says.as_str()).collect();

    assert_eq!(says, ["A", "Apple.png", "apricot.png", "B", "boat.png"]);
}

#[test]
fn a_heading_someone_else_wrote_is_left_where_it_is_and_starts_the_letters_again() {
    let album = Row::naming("Albums", Aside(""));
    let apple = Row::new("Apple.png", Aside(""));

    let lettered = lettered(vec![album, apple]);
    let says: Vec<&str> = lettered.iter().map(|row| row.says.as_str()).collect();

    assert_eq!(says, ["Albums", "A", "Apple.png"]);
}

#[test]
fn the_letters_start_again_after_a_heading_even_under_the_same_letter() {
    let apple = Row::new("Apple.png", Aside(""));
    let album = Row::naming("Albums", Aside(""));
    let apricot = Row::new("apricot.png", Aside(""));

    let lettered = lettered(vec![apple, album, apricot]);
    let says: Vec<&str> = lettered.iter().map(|row| row.says.as_str()).collect();

    assert_eq!(says, ["A", "Apple.png", "Albums", "A", "apricot.png"]);
    assert!(lettered[0].naming);
    assert!(!lettered[1].naming);
}

#[test]
fn what_does_not_begin_with_a_letter_still_stands_under_something() {
    assert_eq!(under("beach.jpg"), "B".to_string());
    assert_eq!(under("Beach.jpg"), "B".to_string());
    assert_eq!(under("2019-07-04.jpg"), NUMBERS.to_string());
    assert_eq!(under("_draft.png"), REST.to_string());
    assert_eq!(under(""), REST.to_string());
    assert_eq!(under("ไทย.jpg"), "ไ".to_string());
}

#[test]
fn the_numbers_stand_before_the_letters_and_the_rest_after_them() {
    assert_eq!(standing("2019.png"), 0);
    assert_eq!(standing("boat.png"), 1);
    assert_eq!(standing("_draft.png"), 2);
}

fn titles() -> Vec<String> {
    ["Battery", "Sound", "Wi-Fi"].iter().map(|title| title.to_string()).collect()
}

#[test]
fn a_tab_is_found_by_the_word_on_it_however_it_is_written() {
    assert_eq!(find(&titles(), Some("sound")), 1);
    assert_eq!(find(&titles(), Some("  Wi-Fi ")), 2);
}

#[test]
fn a_name_nothing_answers_to_opens_the_first_tab() {
    assert_eq!(find(&titles(), Some("Telepathy")), 0);
    assert_eq!(find(&titles(), None), 0);
}

#[test]
fn a_row_that_says_now_is_the_one_in_effect() {
    let marked = Row::said("Balanced", Aside(NOW));
    let plain = Row::said("Balanced", Aside(""));

    assert_eq!(marked.now(), Active::Yes);
    assert_eq!(plain.now(), Active::No);
}

#[test]
fn standing_past_the_end_of_a_strip_stands_on_the_last_press() {
    let row = Row::pressing(strip(), 40);

    assert_eq!(row.buttons.expect("a strip").at, 2);
    assert_eq!(Row::pressing(strip(), 1).buttons.expect("a strip").at, 1);
    assert_eq!(Row::pressing(Vec::new(), 5).buttons.expect("a strip").at, 0);
}

#[test]
fn the_dpad_steps_over_a_heading_and_stays_put_at_either_end() {
    let rows = vec![
        Row::naming("Speakers", Aside("")),
        Row::new("Built-in", Aside("")),
        Row::nothing("Nothing else is plugged in"),
        Row::new("Headphones", Aside("")),
    ];

    assert_eq!(walked(&rows, -1, Step(1)), 1);
    assert_eq!(walked(&rows, 1, Step(1)), 3);
    assert_eq!(walked(&rows, 3, Step(1)), 3);
    assert_eq!(walked(&rows, 3, Step(-1)), 1);
    assert_eq!(walked(&rows, 1, Step(-1)), 1);
}

#[test]
fn a_row_that_offers_something_is_stood_beside_and_a_level_moves() {
    assert_eq!(nudged(Beside::No, Wears::WhatElse, Holds::Nothing, 1), Nudged::Stand);
    assert_eq!(nudged(Beside::Yes, Wears::WhatElse, Holds::Nothing, -1), Nudged::Back);
    assert_eq!(nudged(Beside::Yes, Wears::WhatElse, Holds::Nothing, 1), Nudged::Nothing);
    assert_eq!(nudged(Beside::No, Wears::WhatElse, Holds::Level, 1), Nudged::Level);
    assert_eq!(nudged(Beside::No, Wears::Nothing, Holds::Nothing, 1), Nudged::Level);
    assert_eq!(nudged(Beside::No, Wears::WhatElse, Holds::Nothing, -1), Nudged::Level);
}

#[test]
fn a_row_that_asked_for_no_marks_wears_none_even_when_it_offers() {
    let bare = Row::said("Volume", Aside("")).offering().ended(Ends { less: "", more: "" });
    let offering = Row::said("Volume", Aside("")).offering();

    assert_eq!(console_panel::page::wears(&bare), Wears::Nothing);
    assert_eq!(console_panel::page::wears(&offering), Wears::WhatElse);
    assert_eq!(console_panel::page::ends_of(&offering), (console_panel::marks::LESS, console_panel::marks::MORE));
    assert_eq!(console_panel::page::ends_of(&bare), ("", ""));
}

#[test]
fn a_bar_is_filled_as_far_as_the_thing_has_got() {
    assert_eq!(Bar { at: 1, of: 4 }.filled(200), 50);
    assert_eq!(Bar { at: 9, of: 4 }.filled(200), 200);
    assert_eq!(Bar { at: 3, of: 0 }.filled(200), 0);
    assert_eq!(Bar { at: u64::MAX, of: u64::MAX }.filled(u32::MAX), u32::MAX);
}

#[test]
fn a_cell_carries_what_it_says_and_its_icon() {
    let cell = Cell::new("Noon", Active::Yes).with_icon(Icon::Sun);

    assert_eq!(cell.says, "Noon");
    assert!(cell.now);
    assert_eq!(cell.icon, Some(Icon::Sun));
    assert!(!Cell::new("Dusk", Active::No).now);
}

#[test]
fn a_watch_runs_what_it_was_given() {
    let watch = Watch::anything(&["inotifywait", "-m", "/tmp"]);

    assert_eq!(watch.arguments, vec!["inotifywait".to_string(), "-m".to_string(), "/tmp".to_string()]);
}

#[test]
fn two_rows_that_do_different_things_and_read_the_same_look_the_same() {
    let runs = Row::new("Firefox", Aside(""));
    let calls = Row::new("Firefox", Aside(""));

    assert_eq!(runs.looks_like(&calls), Same::Yes);
}

fn runs(says: &str, aside: &str) -> Row {
    Row::new(says, Aside(aside))
}

#[test]
fn anything_that_is_drawn_differently_is_a_row_that_must_be_drawn_again() {
    let row = runs("Firefox", "");
    let said = Row::said("Firefox", Aside(""));
    let opened = row.clone().opening();
    let pictured = row.clone().picturing(Picture::Space);
    let naming = Row::naming("Firefox", Aside(""));
    let chief = row.clone().chief();
    let nothing = Row::nothing("Firefox");

    assert_eq!(row.looks_like(&runs("Chromium", "")), Same::No);
    assert_eq!(row.looks_like(&runs("Firefox", "now")), Same::No);
    assert_eq!(row.looks_like(&said), Same::No);
    assert_eq!(row.looks_like(&opened), Same::No);
    assert_eq!(row.looks_like(&pictured), Same::No);
    assert_eq!(row.looks_like(&naming), Same::No);
    assert_eq!(row.looks_like(&chief), Same::No);
    assert_eq!(row.looks_like(&nothing), Same::No);
}

fn leveled(says: &str, aside: &str) -> Row {
    Row::said(says, Aside(aside)).leveled()
}

#[test]
fn a_level_that_says_a_new_reading_is_drawn_again() {
    let quiet = leveled("Volume", "40%");
    let loud = leveled("Volume", "60%");

    assert_eq!(quiet.looks_like(&loud), Same::No);
    assert_eq!(quiet.looks_like(&quiet.clone()), Same::Yes);
}

fn pressing(presses: Vec<Press>, at: u32) -> Row {
    Row::pressing(presses, at)
}

#[test]
fn a_strip_walked_along_is_drawn_again() {
    let here = pressing(strip(), 0);
    let there = pressing(strip(), 1);

    assert_eq!(here.looks_like(&there), Same::No);
    assert_eq!(here.looks_like(&pressing(strip(), 0)), Same::Yes);
}

#[test]
fn a_press_that_has_come_on_is_drawn_again() {
    let off = pressing(strip(), 1);
    let mut lit = strip();
    lit[0].now = Active::Yes;

    assert_eq!(off.looks_like(&pressing(lit, 1)), Same::No);
}

#[test]
fn a_press_that_shows_something_else_is_drawn_again() {
    let mut other = strip();
    other[1].face = Face::Written("Pause".to_string());

    assert_eq!(pressing(strip(), 1).looks_like(&pressing(other, 1)), Same::No);

    let mut swatches = strip();
    swatches[0].face = Face::Swatch(7);
    let mut recoloured = strip();
    recoloured[0].face = Face::Swatch(8);

    assert_eq!(pressing(swatches.clone(), 1).looks_like(&pressing(swatches, 1)), Same::Yes);
    assert_eq!(pressing(strip(), 1).looks_like(&pressing(recoloured, 1)), Same::No);
}

#[test]
fn a_row_told_more_keeps_everything_it_was_told_before() {
    let row = Row::said("Song", Aside("3:20")).tailing(Picture::Named(Icon::Play)).in_the_middle();

    assert_eq!(row.tail, Some(Picture::Named(Icon::Play)));
    assert!(row.middle);
    assert_eq!(row.says, "Song");
    assert_eq!(row.aside, "3:20");
}

#[test]
fn a_row_of_cells_that_names_is_a_heading_of_cells() {
    let row = Row::naming_cells(vec![Cell::new("Mon", Active::No), Cell::new("Tue", Active::Yes)]);

    assert!(row.naming);
    assert_eq!(row.cells.len(), 2);
    assert_eq!(row.says, "");
}
