use console_panel::surface::{acting, Acting, Selection};
use console_panel::page::{Aside, Row};
use console_panel::surface::{
    done_with, every_key, still_selected, what_to_do, Done, Steering, DESELECT_ALL, SELECT_ALL,
};

fn rows() -> Vec<Row> {
    vec![
        Row::new("One", Aside("")).selectable("one"),
        Row::nothing("Heading"),
        Row::new("Two", Aside("")).selectable("two"),
        Row::new("Three", Aside("")).selectable("three"),
    ]
}

fn selected(keys: &[&str]) -> Steering {
    let mut state = Steering::new(0);
    state.selected = keys.iter().map(|k| k.to_string()).collect();
    state
}

#[test]
fn what_is_selected_and_gone_from_the_page_is_left_out_in_the_order_selected() {
    let state = selected(&["three", "gone", "one"]);

    assert_eq!(still_selected(&state, &rows()), vec!["three".to_string(), "one".to_string()]);
}

#[test]
fn every_key_is_the_keys_of_the_rows_in_order() {
    assert_eq!(every_key(&rows()), vec!["one".to_string(), "two".to_string(), "three".to_string()]);
    assert!(every_key(&vec![Row::nothing("Heading")]).is_empty());
}

#[test]
fn a_selection_is_asked_about_by_how_many_are_selected() {
    let state = selected(&["two", "gone", "one"]);
    let acts = vec!["Delete".to_string(), "Move".to_string()];

    let asked = what_to_do(&state, &rows(), &acts);

    assert_eq!(asked.question, "2 Selected");
    assert_eq!(asked.answers, vec!["Cancel", "Delete", "Move", SELECT_ALL, DESELECT_ALL]);
    assert_eq!(asked.keys, vec!["two".to_string(), "one".to_string()]);
    assert_eq!(asked.every, vec!["one".to_string(), "two".to_string(), "three".to_string()]);
}

#[test]
fn an_answer_after_cancel_acts_or_marks_every_row_or_unmarks_them() {
    let every = vec!["one".to_string(), "two".to_string()];

    let act = done_with(1, 2, &every);
    assert_eq!(act.done, Done::Act(1));
    assert!(act.selected.is_empty(), "what an act was done on is unmarked after it");

    let all = done_with(2, 2, &every);
    assert_eq!(all.done, Done::SelectAll);
    assert_eq!(all.selected, every);

    let none = done_with(3, 2, &every);
    assert_eq!(none.done, Done::DeselectAll);
    assert!(none.selected.is_empty());
}

fn a_folder_that_selects() -> Vec<Row> {
    ["beach.jpg", "dune.jpg", "sea.jpg"]
        .iter()
        .map(|name| Row::new(name, Aside("")).selectable(name))
        .collect()
}

#[test]
fn select_all_marks_every_row_that_can_be_marked() {
    let rows = a_folder_that_selects();
    let mut state = Steering::new(0);
    state.selected = vec!["dune.jpg".to_string()];

    assert_eq!(acting(&state, &rows, 1, Selection::Else, true), Acting::AskWhatToDo);

    let acts = vec!["Delete".to_string()];
    let asked = what_to_do(&state, &rows, &acts);
    let answered = done_with(2 - 1, acts.len(), &asked.every);
    state.selected = answered.selected;

    assert_eq!(state.selected.len(), 3, "{:?}", state.selected);
}
