use console_panel::surface::asked_for;
use console_panel::icons::Icon;
use console_panel::keys::Meaning;
use console_panel::page::{Active, Aside, Beside, ButtonStyle, Face, Picture, Placed, Press, Row};
use console_panel::strip::PICTURE;
use console_panel::surface::{
    acting, beside_the_words, card_on, still_of, leaned, outside, scrolled, scrolled_to, selected_of, stepped_onto,
    told, toggled, wanted_of, Acting, Card, Framing, Lands, Opened, Outcome, Owner, Selected, Selection,
    Steering, SurfaceSize, Viewport,
};

fn state(here: u32) -> Steering {
    Steering::new(here)
}

#[test]
fn a_row_that_has_a_square_at_its_front_starts_its_words_after_it() {
    let room = beside_the_words(&Picture::Space);
    let none = beside_the_words(&Picture::Blank);
    let at = beside_the_words(&Picture::At("/x.png".to_string()));

    assert!(room > PICTURE, "the square and the gap after it");
    assert_eq!(at, room, "a picture takes the room a blank square holds open");
    assert_eq!(none, 0, "and a row with nothing at its front gives none of it away");
}

#[test]
fn a_row_whose_picture_is_not_made_yet_asks_for_it_rather_than_drawing_it() {
    let at = Picture::At("/usr/share/x.png".to_string());

    assert_eq!(wanted_of(&at), Some("/usr/share/x.png"));
    assert_eq!(wanted_of(&Picture::Sleeve(None)), None, "a sleeve nobody found is nothing to ask the maker for");
    assert_eq!(wanted_of(&Picture::Named(Icon::Folder)), None, "and an icon is a name the store is not keyed by");
}

#[test]
fn the_dpad_lands_on_a_row_that_does_something_and_steps_over_the_heading_over_it() {
    let rows = vec![Row::nothing("Sound"), Row::new("Volume", Aside("")), Row::new("Balance", Aside(""))];
    let mut state = state(0);

    let down = told(&mut state, Meaning::Step(1), &rows, 1, false);

    assert_eq!(down, Outcome::Redrawn);
    assert_eq!(state.at, Some(1), "the first press skips the heading");

    told(&mut state, Meaning::Step(1), &rows, 1, false);

    assert_eq!(state.at, Some(2));

    told(&mut state, Meaning::Step(1), &rows, 1, false);

    assert_eq!(state.at, Some(2), "the list does not wrap past its last row");
}

#[test]
fn a_step_is_heard_only_when_it_lands_somewhere_else() {
    let rows = vec![Row::new("Volume", Aside("")), Row::new("Balance", Aside(""))];
    let mut state = state(0);

    let before = state.at;
    told(&mut state, Meaning::Step(1), &rows, 1, false);
    assert_eq!(stepped_onto(Meaning::Step(1), before, &state), Some(0));

    let before = state.at;
    told(&mut state, Meaning::Step(1), &rows, 1, false);
    assert_eq!(stepped_onto(Meaning::Step(1), before, &state), Some(1));

    let before = state.at;
    told(&mut state, Meaning::Step(1), &rows, 1, false);
    assert_eq!(stepped_onto(Meaning::Step(1), before, &state), None, "the end of the list is silent");
    assert_eq!(stepped_onto(Meaning::Tab(1), Some(0), &state), None, "a tab is not a step");
}

#[test]
fn a_is_the_row_doing_what_it_says_it_does() {
    let rows = vec![Row::new("Rename", Aside(""))];
    let mut state = state(0);

    told(&mut state, Meaning::Step(1), &rows, 1, false);
    let chose = told(&mut state, Meaning::Choose, &rows, 1, false);

    assert_eq!(chose, Outcome::Chose(0));
    assert_eq!(acting(&state, &rows, 0, Selection::Chose, false), Acting::Does);
}

#[test]
fn b_over_a_picture_puts_the_picture_away_and_not_the_panel() {
    let mut state = state(0);

    state.opened = Opened::Expanded;

    assert_eq!(told(&mut state, Meaning::Close, &Vec::new(), 1, false), Outcome::Redrawn);
    assert_eq!(state.opened, Opened::No);
    assert_eq!(told(&mut state, Meaning::Close, &Vec::new(), 1, false), Outcome::Closing, "the second press is the panel's");
}

#[test]
fn b_puts_the_panel_away_and_the_shoulders_turn_the_page() {
    let mut state = state(0);

    assert_eq!(told(&mut state, Meaning::Tab(1), &Vec::new(), 2, false), Outcome::Redrawn);
    assert_eq!(state.here, 1);
    assert_eq!(told(&mut state, Meaning::Close, &Vec::new(), 2, false), Outcome::Closing);
}

#[test]
fn a_shoulder_past_the_last_tab_stands_on_the_way_out_and_a_puts_the_panel_away() {
    let rows = vec![Row::new("Volume", Aside(""))];
    let mut state = state(1);

    told(&mut state, Meaning::Tab(1), &rows, 2, false);
    assert_eq!(state.leaving, console_panel::surface::Leaving::Standing);

    assert_eq!(told(&mut state, Meaning::Step(1), &rows, 2, false), Outcome::Redrawn);
    assert_eq!(state.leaving, console_panel::surface::Leaving::No, "a step comes back off the way out");

    told(&mut state, Meaning::Tab(1), &rows, 2, false);
    assert_eq!(told(&mut state, Meaning::Choose, &rows, 2, false), Outcome::Closing);
}

fn folder() -> Vec<Row> {
    ["beach.jpg", "dune.jpg", "sea.jpg"].iter().map(|name| Row::new(name, Aside("")).selectable(name)).collect()
}

#[test]
fn b_puts_a_selection_down_before_it_closes_anything() {
    let rows = folder();
    let mut state = state(0);

    state.selected = vec!["dune.jpg".to_string()];

    assert_eq!(told(&mut state, Meaning::Close, &rows, 1, true), Outcome::Redrawn);
    assert!(state.selected.is_empty());
    assert_eq!(told(&mut state, Meaning::Close, &rows, 1, true), Outcome::Closing);
}

#[test]
fn once_something_is_selected_a_press_marks_rather_than_opens_and_y_acts_on_every_mark() {
    let rows = folder();
    let mut state = state(0);

    assert_eq!(acting(&state, &rows, 0, Selection::Chose, true), Acting::Does, "with nothing selected a press opens");

    state.selected = vec!["beach.jpg".to_string()];

    assert_eq!(acting(&state, &rows, 2, Selection::Chose, true), Acting::Toggle);
    toggled(&mut state, "sea.jpg");
    toggled(&mut state, "dune.jpg");
    toggled(&mut state, "dune.jpg");

    assert_eq!(state.selected, vec!["beach.jpg".to_string(), "sea.jpg".to_string()]);
    assert_eq!(selected_of(&state, &rows[2]), Selected::Yes);
    assert_eq!(selected_of(&state, &rows[1]), Selected::No);
    assert_eq!(acting(&state, &rows, 0, Selection::Else, true), Acting::AskWhatToDo);
}

#[test]
fn right_on_a_row_that_offers_something_stands_beside_it_and_a_runs_it() {
    let rows = vec![Row::said("Ferry.jpg", Aside("2.1 MB")).offering()];
    let mut state = state(0);

    told(&mut state, Meaning::Step(1), &rows, 1, false);
    let stood = told(&mut state, Meaning::Nudge(1), &rows, 1, false);

    assert_eq!(stood, Outcome::Redrawn);
    assert_eq!(state.beside, Beside::Yes, "the highlight is on what else the row offers");

    let chose = told(&mut state, Meaning::Choose, &rows, 1, false);

    assert_eq!(chose, Outcome::Else(0));
    assert_eq!(state.beside, Beside::No, "and it comes back to the row");
    assert_eq!(acting(&state, &rows, 0, Selection::Else, false), Acting::Offers);
}

#[test]
fn right_on_a_row_that_holds_a_level_moves_the_level_instead() {
    let rows = vec![Row::said("Volume", Aside("40%")).leveled()];
    let mut state = state(0);

    state.at = Some(0);

    assert_eq!(told(&mut state, Meaning::Nudge(1), &rows, 1, false), Outcome::Leveled(0, 1));
    assert_eq!(state.beside, Beside::No, "a row with a level has nowhere to stand beside");
}

fn press() -> Press {
    Press { face: Face::Glyph(Icon::Play), now: Active::No, chief: false, placed: Placed::Among, style: ButtonStyle::Gray }
}

#[test]
fn left_and_right_walk_a_strip_of_buttons_and_a_press_takes_the_one_stood_on() {
    let rows = vec![Row::pressing(vec![press(), press(), press()], 1)];
    let mut state = state(0);

    state.at = Some(0);

    assert_eq!(acting(&state, &rows, 0, Selection::Chose, false), Acting::Press(1));

    told(&mut state, Meaning::Nudge(-1), &rows, 1, false);
    assert_eq!(told(&mut state, Meaning::Nudge(-1), &rows, 1, false), Outcome::Nothing, "no further than the first");
    assert_eq!(acting(&state, &rows, 0, Selection::Chose, false), Acting::Press(0));

    told(&mut state, Meaning::Nudge(1), &rows, 1, false);
    told(&mut state, Meaning::Nudge(1), &rows, 1, false);
    assert_eq!(told(&mut state, Meaning::Nudge(1), &rows, 1, false), Outcome::Nothing, "no further than the last");
    assert_eq!(acting(&state, &rows, 0, Selection::Chose, false), Acting::Press(2));
}

#[test]
fn a_highlight_under_the_card_brings_the_list_up_to_it() {
    let row = console_panel::fitting::ROW;
    let room = row * 4;
    let top = Viewport { room, y: 0 };

    assert_eq!(scrolled(None, top), 0);
    assert_eq!(scrolled(Some(2), top), 0, "a row already in the room does not move it");
    assert_eq!(scrolled(Some(5), top), row * 2, "the sixth row of four is two rows down");
    assert_eq!(scrolled(Some(1), Viewport { room, y: row * 3 }), row, "stepping back up brings the row to the top");
}

#[test]
fn a_thumb_that_scrolled_the_highlight_away_brings_it_back_into_view() {
    let row = console_panel::fitting::ROW;
    let rows: Vec<Row> = (0..10).map(|_| Row::new("Track", Aside(""))).collect();
    let mut state = state(0);

    state.at = Some(0);
    scrolled_to(&mut state, &rows, Viewport { room: row * 4, y: row * 3 });

    assert_eq!(state.scroll, row * 3);
    assert_eq!(state.at, Some(3));

    scrolled_to(&mut state, &rows, Viewport { room: row * 4, y: row * 100 });

    assert_eq!(state.scroll, row * 6, "no further than the last row");
}

#[test]
fn a_question_leans_between_its_answers_and_no_further() {
    assert_eq!(leaned(0, 3, -1), 0);
    assert_eq!(leaned(0, 3, 1), 1);
    assert_eq!(leaned(2, 3, 1), 2);
    assert_eq!(leaned(0, 0, 1), 0);
}

#[test]
fn an_app_is_the_whole_screen_and_a_panel_is_a_card_on_it() {
    let surface = SurfaceSize { width: 1000, height: 1000 };

    assert_eq!(card_on(surface, Opened::No, Framing::Screen), Card { x: 0, y: 0, width: 1000, height: 1000 });
    assert_eq!(card_on(surface, Opened::Expanded, Framing::Card), Card { x: 0, y: 0, width: 1000, height: 1000 });
    assert_eq!(card_on(surface, Opened::No, Framing::Card), Card { x: 35, y: 100, width: 930, height: 800 });
}

#[test]
fn a_finger_off_the_card_is_outside_it() {
    let card = Card { x: 10, y: 10, width: 100, height: 50 };

    assert!(!outside(&card, 10, 10));
    assert!(outside(&card, 110, 20));
    assert!(outside(&card, 20, 60));
    assert!(outside(&card, 9, 20));
}

#[test]
fn every_part_a_hand_can_land_on_is_named_for_what_it_belongs_to() {
    assert_eq!(Lands::Row(3).named(), ("press", Owner::Row(3)));
    assert_eq!(Lands::Back.named(), ("shut", Owner::Card));
    assert_eq!(Lands::Seek { row: 1, from: 0, wide: 9 }.named(), ("seek", Owner::Row(1)));
}

#[test]
fn only_a_picture_being_looked_at_is_a_still() {
    assert_eq!(still_of(&Picture::Showing(Some("/a.png".to_string()))), Some("/a.png"));
    assert_eq!(still_of(&Picture::Playing(Some("/a.mkv".to_string()))), None);
    assert_eq!(still_of(&Picture::Showing(None)), None);
}

#[test]
fn the_card_asks_for_the_pictures_of_its_rows_in_order_and_nothing_else() {
    let rows = vec![
        Row::new("One", Aside("")).picturing(Picture::At("/a.png".to_string())),
        Row::new("Two", Aside("")).picturing(Picture::Named(Icon::Folder)),
        Row::new("Three", Aside("")).picturing(Picture::Sleeve(Some("/b.jpg".to_string()))),
        Row::new("Four", Aside("")).picturing(Picture::Sleeve(None)),
        Row::new("Five", Aside("")).picturing(Picture::Showing(Some("/c.png".to_string()))),
    ];

    assert_eq!(asked_for(&rows), vec!["/a.png".to_string(), "/b.jpg".to_string()]);
    assert!(asked_for(&vec![]).is_empty());
}
