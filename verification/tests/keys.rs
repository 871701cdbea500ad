use console_panel::keys::{meaning, Driving, Keysym, Meaning, Sweep};

#[test]
fn b_closes_a_panel_by_either_of_the_two_names_it_arrives_under() {
    assert_eq!(meaning(Keysym::Escape, Driving::Panel), Meaning::Close);
    assert_eq!(meaning(Keysym::BackSpace, Driving::Panel), Meaning::Close);
}

#[test]
fn the_dpad_moves_the_highlight_up_and_down() {
    assert_eq!(meaning(Keysym::Down, Driving::Panel), Meaning::Step(1));
    assert_eq!(meaning(Keysym::Up, Driving::Panel), Meaning::Step(-1));
}

#[test]
fn the_shoulders_move_between_tabs_and_the_dpad_moves_within_a_row() {
    assert_eq!(meaning(Keysym::Page_Up, Driving::Panel), Meaning::Tab(-1));
    assert_eq!(meaning(Keysym::Page_Down, Driving::Panel), Meaning::Tab(1));
    assert_eq!(meaning(Keysym::Left, Driving::Panel), Meaning::Nudge(-1));
    assert_eq!(meaning(Keysym::Right, Driving::Panel), Meaning::Nudge(1));
}

#[test]
fn while_something_is_being_typed_only_back_is_the_panels() {
    assert_eq!(meaning(Keysym::Escape, Driving::Question), Meaning::Abandon);
    for key in [Keysym::BackSpace, Keysym::Down, Keysym::Left, Keysym::Page_Up, Keysym::Return, Keysym::space] {
        assert_eq!(meaning(key, Driving::Question), Meaning::Nothing);
    }
}

#[test]
fn y_asks_a_row_what_else_can_be_done_with_it() {
    assert_eq!(meaning(Keysym::F18, Driving::Panel), Meaning::More);
    assert_eq!(meaning(Keysym::F18, Driving::Question), Meaning::Nothing);
}

#[test]
fn y_is_heard_under_the_name_the_keymap_gives_it() {
    assert_eq!(meaning(Keysym::XF86_Launch9, Driving::Panel), Meaning::More);
    assert_eq!(meaning(Keysym::XF86_Launch9, Driving::Search), Meaning::More);
    assert_eq!(meaning(Keysym::XF86_Launch9, Driving::Question), Meaning::Nothing);
}

#[test]
fn a_search_line_keeps_the_list_and_lends_out_the_letters() {
    assert_eq!(meaning(Keysym::Down, Driving::Search), Meaning::Step(1));
    assert_eq!(meaning(Keysym::Up, Driving::Search), Meaning::Step(-1));
    assert_eq!(meaning(Keysym::Page_Down, Driving::Search), Meaning::Tab(1));
    assert_eq!(meaning(Keysym::Return, Driving::Search), Meaning::Choose);
    assert_eq!(meaning(Keysym::Escape, Driving::Search), Meaning::Close);
    for key in [Keysym::BackSpace, Keysym::Left, Keysym::Right, Keysym::space, Keysym::a] {
        assert_eq!(meaning(key, Driving::Search), Meaning::Nothing);
    }
}

#[test]
fn a_yes_or_no_question_is_answered_left_and_right() {
    assert_eq!(meaning(Keysym::Left, Driving::Sure), Meaning::Nudge(-1));
    assert_eq!(meaning(Keysym::Right, Driving::Sure), Meaning::Nudge(1));
    assert_eq!(meaning(Keysym::Return, Driving::Sure), Meaning::Choose);
    assert_eq!(meaning(Keysym::Escape, Driving::Sure), Meaning::Abandon);
    assert_eq!(meaning(Keysym::BackSpace, Driving::Sure), Meaning::Abandon);
}

#[test]
fn nothing_else_reaches_a_question_of_two_answers() {
    for key in [Keysym::Down, Keysym::Up, Keysym::Page_Down, Keysym::Page_Up, Keysym::F18, Keysym::XF86_Launch9] {
        assert_eq!(meaning(key, Driving::Sure), Meaning::Nothing);
    }
}

#[test]
fn a_key_the_panel_has_no_use_for_belongs_to_whatever_else_is_listening() {
    assert_eq!(meaning(Keysym::a, Driving::Panel), Meaning::Nothing);
    assert_eq!(meaning(Keysym::F1, Driving::Panel), Meaning::Nothing);
    assert_eq!(meaning(Keysym::Other(0x1008ff12), Driving::Panel), Meaning::Nothing);
}

#[test]
fn a_sweep_steps_a_level_back_or_on_and_no_sweep_steps_nothing() {
    assert_eq!(Sweep::On.step(), Some(1));
    assert_eq!(Sweep::Back.step(), Some(-1));
    assert_eq!(Sweep::Nothing.step(), None);
}
