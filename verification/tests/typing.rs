use console_panel::keys::{Driving, Meaning};
use console_panel::surface::{driving, in_the_line, pressed_here, typed_into, Filled, Pressed, Typed, Typing};

#[test]
fn a_letter_goes_into_the_line_and_a_backspace_takes_it_out_again() {
    let mut typed = String::new();

    assert_eq!(typed_into(&mut typed, Typing::Letter('a')), Typed::Edited);
    assert_eq!(typed_into(&mut typed, Typing::Letter('b')), Typed::Edited);
    assert_eq!(typed, "ab");

    assert_eq!(typed_into(&mut typed, Typing::Back), Typed::Edited);
    assert_eq!(typed, "a");

    assert_eq!(typed_into(&mut typed, Typing::Letter('\r')), Typed::Nothing);
    assert_eq!(typed_into(&mut typed, Typing::Other), Typed::Nothing);
    assert_eq!(typed, "a", "a key that means something to the panel is not a letter");

    assert_eq!(typed_into(&mut String::new(), Typing::Back), Typed::Nothing, "nothing to take out of an empty line");
}

#[test]
fn a_letter_outside_ascii_is_typed_and_a_control_one_is_not() {
    let mut typed = "caf".to_string();

    assert_eq!(typed_into(&mut typed, Typing::Letter('é')), Typed::Edited);
    assert_eq!(typed, "café");
    assert_eq!(typed_into(&mut typed, Typing::Letter('\u{7f}')), Typed::Nothing);
    assert_eq!(typed_into(&mut typed, Typing::Letter('\u{9f}')), Typed::Nothing);
    assert_eq!(typed_into(&mut typed, Typing::Letter('\u{a0}')), Typed::Edited);
}

#[test]
fn the_line_shows_what_was_typed_or_what_it_is_for() {
    assert_eq!(in_the_line(None, "aeth", Some("Type to narrow the list")), ("aeth".to_string(), Filled::Typed));
    assert_eq!(
        in_the_line(None, "", Some("Type to narrow the list")),
        ("Type to narrow the list".to_string(), Filled::Empty)
    );
    assert_eq!(in_the_line(None, "", None), (String::new(), Filled::Empty));
}

#[test]
fn a_secret_answer_shows_a_dot_for_each_letter() {
    assert_eq!(in_the_line(Some(("hunter2", true)), "ignored", None), ("\u{25cf}".repeat(7), Filled::Typed));
    assert_eq!(in_the_line(Some(("Pixel", false)), "", None), ("Pixel".to_string(), Filled::Typed));
    assert_eq!(in_the_line(Some(("", true)), "typed", Some("about")), (String::new(), Filled::Empty));
}

#[test]
fn a_page_that_can_be_searched_is_driven_as_a_search_line() {
    assert_eq!(driving(false, false, false), Driving::Panel);
    assert_eq!(driving(false, false, true), Driving::Search);
}

#[test]
fn a_question_over_the_list_takes_the_keys_from_the_search() {
    assert_eq!(driving(false, true, true), Driving::Question);
    assert_eq!(driving(true, true, true), Driving::Sure);
}

#[test]
fn a_row_that_asks_a_question_is_typed_into_and_answered_by_return() {
    assert_eq!(pressed_here(Meaning::Nothing, Driving::Question, false, true), Pressed::TypeIntoQuestion);
    assert_eq!(pressed_here(Meaning::Nothing, Driving::Question, true, true), Pressed::Answer);
    assert_eq!(pressed_here(Meaning::Abandon, Driving::Question, false, true), Pressed::DropQuestion);
    assert_eq!(pressed_here(Meaning::Step(1), Driving::Question, false, true), Pressed::Staying, "the list is not walked under a question");
}

#[test]
fn a_row_that_asks_whether_somebody_is_sure_is_answered_left_and_right() {
    assert_eq!(pressed_here(Meaning::Nudge(1), Driving::Sure, false, true), Pressed::Lean(1));
    assert_eq!(pressed_here(Meaning::Nudge(-1), Driving::Sure, false, true), Pressed::Lean(-1));
    assert_eq!(pressed_here(Meaning::Choose, Driving::Sure, false, true), Pressed::TakeSure);
    assert_eq!(pressed_here(Meaning::Abandon, Driving::Sure, false, true), Pressed::DropSure);
}

#[test]
fn with_nothing_asked_a_key_steers_the_card_and_a_letter_goes_into_the_search() {
    assert_eq!(pressed_here(Meaning::Step(1), Driving::Panel, false, false), Pressed::Steer);
    assert_eq!(pressed_here(Meaning::Nothing, Driving::Search, false, false), Pressed::TypeIntoSearch);
    assert_eq!(pressed_here(Meaning::Close, Driving::Search, false, false), Pressed::Steer);
}
