use console_panel::page::{Aside, Beside, Row};
use console_panel::surface::{tapped, Lands, Opened, Outcome, Selection, Steering, Tap};

fn rows() -> Vec<Row> {
    vec![Row::new("one", Aside("")), Row::new("two", Aside("")), Row::new("three", Aside("")).offering()]
}

#[test]
fn a_tap_on_a_row_stands_on_it_and_chooses_it() {
    let mut state = Steering::new(0);
    let tap = tapped(&mut state, Some(Lands::Row(1)), &rows(), 2, false, false, false);

    assert_eq!(tap, Tap::Act(1, Selection::Chose));
    assert_eq!(state.at, Some(1));
    assert_eq!(state.beside, Beside::No);
}

#[test]
fn a_tap_past_the_last_row_does_nothing() {
    let mut state = Steering::new(0);

    assert_eq!(tapped(&mut state, Some(Lands::Row(3)), &rows(), 2, false, false, false), Tap::Staying);
    assert_eq!(state, Steering::new(0));
}

#[test]
fn a_tap_on_what_else_a_row_offers_asks_it_and_a_press_remembers_which() {
    let mut state = Steering::new(0);

    state.beside = Beside::Yes;

    assert_eq!(tapped(&mut state, Some(Lands::Else(2)), &rows(), 2, false, false, false), Tap::Act(2, Selection::Else));
    assert_eq!((state.at, state.beside), (Some(2), Beside::Yes));

    let press = tapped(&mut state, Some(Lands::ButtonPress { row: 0, which: 2 }), &rows(), 2, false, false, false);

    assert_eq!(press, Tap::Act(0, Selection::Chose));
    assert_eq!((state.at, state.beside, state.pressing), (Some(0), Beside::No, Some((0, 2))));
}

#[test]
fn a_tap_on_a_level_a_bar_or_an_answer_is_handed_on() {
    let mut state = Steering::new(0);

    assert_eq!(tapped(&mut state, Some(Lands::Nudge { row: 1, step: -1 }), &rows(), 2, false, false, false), Tap::Level(1, -1));
    assert_eq!(
        tapped(&mut state, Some(Lands::Seek { row: 2, from: 100, wide: 300 }), &rows(), 2, false, false, false),
        Tap::Seek(2, 100, 300)
    );
    assert_eq!(state.at, Some(2));
    assert_eq!(tapped(&mut state, Some(Lands::Answer(1)), &rows(), 2, false, false, false), Tap::Answer(1));
}

#[test]
fn a_tap_on_a_tab_turns_to_it() {
    let mut state = Steering::new(0);

    state.at = Some(1);

    assert_eq!(tapped(&mut state, Some(Lands::Tab(1)), &rows(), 2, false, false, false), Tap::Staying);
    assert_eq!((state.here, state.at), (1, None));
}

#[test]
fn a_finger_off_the_card_puts_the_question_away_and_then_the_panel() {
    let mut state = Steering::new(0);

    assert_eq!(tapped(&mut state, None, &rows(), 2, false, false, true), Tap::Staying, "a finger on the card touched nothing");
    assert_eq!(tapped(&mut state, None, &rows(), 2, false, true, true), Tap::PutQuestionAway);
    assert_eq!(tapped(&mut state, None, &rows(), 2, false, true, false), Tap::Backed(Outcome::Closing));
}

#[test]
fn the_way_back_over_a_picture_puts_the_picture_away_first() {
    let mut state = Steering::new(0);

    state.opened = Opened::Expanded;

    assert_eq!(tapped(&mut state, Some(Lands::Back), &rows(), 2, false, false, false), Tap::Backed(Outcome::Redrawn));
    assert_eq!(state.opened, Opened::No);
    assert_eq!(tapped(&mut state, Some(Lands::Back), &rows(), 2, false, false, false), Tap::Backed(Outcome::Closing));
}
