use console_panel::page::{Aside, Row};
use console_panel::page::Beside;
use console_panel::surface::{arrived, hovered, opened_on, stirs_the_rows, Lands, Leaving, Steering};

#[test]
fn rows_read_for_a_tab_no_longer_in_front_are_not_taken() {
    let mut state = Steering::new(1);
    state.at = Some(5);

    assert!(!arrived(&mut state, 0, 2));
    assert_eq!(state.at, Some(5), "nothing changes for rows of another tab");

    assert!(arrived(&mut state, 1, 9));
    assert_eq!(state.at, Some(5), "a highlight on one of the rows stays on it");
}

#[test]
fn a_highlight_past_the_rows_that_arrived_is_taken_off() {
    let mut state = Steering::new(0);
    state.at = Some(3);

    assert!(arrived(&mut state, 0, 3));
    assert_eq!(state.at, None);
}

#[test]
fn a_card_opens_its_highlight_on_the_first_row_that_does_something() {
    let rows = vec![Row::nothing("Search with"), Row::new("DuckDuckGo", Aside(""))];
    let mut state = Steering::new(0);

    opened_on(&mut state, &rows);
    assert_eq!(state.at, Some(1));

    state.at = Some(0);
    opened_on(&mut state, &rows);
    assert_eq!(state.at, Some(0), "where the highlight already stands it stays");
}

#[test]
fn a_card_of_headings_opens_on_its_first_row_and_a_card_of_nothing_on_none() {
    let mut state = Steering::new(0);

    opened_on(&mut state, &vec![Row::nothing("Nothing else is playing")]);
    assert_eq!(state.at, Some(0));

    let mut empty = Steering::new(0);

    opened_on(&mut empty, &Vec::new());
    assert_eq!(empty.at, None);
}

#[test]
fn a_pointer_over_a_row_moves_the_highlight_there_but_not_onto_a_heading() {
    let rows = vec![Row::nothing("Search with"), Row::new("DuckDuckGo", Aside("")), Row::new("Wikipedia", Aside(""))];
    let mut state = Steering::new(0);
    state.at = Some(1);
    state.beside = Beside::Yes;

    assert!(hovered(&mut state, Some(Lands::Row(2)), &rows));
    assert_eq!(state.at, Some(2));
    assert_eq!(state.beside, Beside::No);

    assert!(!hovered(&mut state, Some(Lands::Row(0)), &rows), "a heading is not stood on");
    assert!(!hovered(&mut state, Some(Lands::Row(2)), &rows), "already there");
    assert!(!hovered(&mut state, Some(Lands::Row(7)), &rows), "no such row");
    assert!(!hovered(&mut state, Some(Lands::Back), &rows));
    assert_eq!(state.at, Some(2));

    state.leaving = Leaving::Standing;
    assert!(!hovered(&mut state, Some(Lands::Row(1)), &rows), "a highlight on its way out stays");
}

#[test]
fn a_tap_on_a_row_has_the_rows_read_again_and_one_on_the_tabs_does_not() {
    assert!(stirs_the_rows(Some(Lands::Row(0))));
    assert!(stirs_the_rows(Some(Lands::Answer(1))));
    assert!(stirs_the_rows(Some(Lands::Nudge { row: 0, step: 1 })));
    assert!(!stirs_the_rows(Some(Lands::Tab(1))));
    assert!(!stirs_the_rows(Some(Lands::More(1))));
    assert!(!stirs_the_rows(Some(Lands::Back)));
    assert!(!stirs_the_rows(None));
}
