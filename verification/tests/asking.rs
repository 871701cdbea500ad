use console_panel::surface::{onto, Asks, Opened, Steering};

fn nothing_asked() -> Asks {
    Asks { at: None, tab: None, opened: None, toggled: false, selecting: None }
}

#[test]
fn a_card_asked_nothing_stays_as_it_was() {
    let mut state = Steering::new(2);
    state.scroll = 30;
    let before = state.clone();

    onto(&mut state, nothing_asked(), 3);

    assert_eq!(state, before);
}

#[test]
fn a_tab_asked_for_is_turned_to_and_starts_afresh() {
    let mut state = Steering::new(0);
    state.scroll = 40;
    state.at = Some(3);
    state.opened = Opened::Expanded;
    state.selected = vec!["a".to_string()];

    onto(&mut state, Asks { tab: Some(1), ..nothing_asked() }, 3);

    assert_eq!(state.here, 1);
    assert_eq!(state.scroll, 0);
    assert_eq!(state.at, None);
    assert_eq!(state.opened, Opened::No);
    assert!(state.selected.is_empty());
}

#[test]
fn a_tab_past_the_last_turns_to_the_last() {
    let mut state = Steering::new(0);

    onto(&mut state, Asks { tab: Some(9), ..nothing_asked() }, 3);

    assert_eq!(state.here, 2);
}

#[test]
fn turning_opening_out_over_flips_it_and_comes_after_what_was_asked() {
    let mut state = Steering::new(0);

    onto(&mut state, Asks { toggled: true, ..nothing_asked() }, 1);
    assert_eq!(state.opened, Opened::Expanded);

    onto(&mut state, Asks { toggled: true, ..nothing_asked() }, 1);
    assert_eq!(state.opened, Opened::No);

    onto(&mut state, Asks { opened: Some(Opened::Expanded), toggled: true, ..nothing_asked() }, 1);
    assert_eq!(state.opened, Opened::No, "asked to open out, then turned over");
}

#[test]
fn a_row_asked_for_and_a_selection_are_taken_as_they_come() {
    let mut state = Steering::new(0);

    onto(
        &mut state,
        Asks { at: Some(4), selecting: Some(vec!["x".to_string(), "y".to_string()]), ..nothing_asked() },
        2,
    );

    assert_eq!(state.at, Some(4));
    assert_eq!(state.selected, vec!["x".to_string(), "y".to_string()]);
}
