use console_panel::icons::Icon;
use console_panel::page::{
    walked, wears, Active, Aside, Bar, Beside, ButtonStyle, Ends, Face, Picture, Placed, Press, Row, Step, Wears,
};
use console_panel::surface::{
    acting, answer_reach, bar_drawn, card_on, cell_words, drawn, frame, header_places, opening_row, placed_rows,
    press_spots, rows_start, trailing_places, Acting, At, Card, CellWords, Drawn, Framing, Laid, Lands, Leaving,
    Lit, Opened, Paint, PressRoom, Said, Selection, Steering, SurfaceSize,
};

fn heading(says: &str) -> Row {
    Row::said(says, Aside(""))
}

fn chooseable(says: &str) -> Row {
    Row::new(says, Aside(""))
}

fn card_for(wide: i32, tall: i32) -> Card {
    card_on(SurfaceSize { width: wide, height: tall }, Opened::No, Framing::Card)
}

fn press(icon: Icon) -> Press {
    Press { face: Face::Glyph(icon), now: Active::No, chief: false, placed: Placed::Among, style: ButtonStyle::Gray }
}

fn written_key(says: &str) -> Press {
    Press { face: Face::Written(says.to_string()), ..press(Icon::Play) }
}

fn inside(card: &Card) -> (i32, i32) {
    (card.x + 3 + 14, card.x + card.width - 3 - 14)
}

#[test]
fn a_row_that_offers_something_behind_y_wears_the_mark_for_it() {
    assert_eq!(wears(&heading("Beach").offering()), Wears::WhatElse);
}

#[test]
fn a_row_that_offers_nothing_wears_nothing() {
    assert_eq!(wears(&heading("Beach")), Wears::Nothing);
    assert_eq!(wears(&heading("Beach").offering().ended(Ends { less: "", more: "" })), Wears::Nothing);
}

#[test]
fn a_card_showing_nothing_but_the_picture_is_a_page_that_wants_the_screen() {
    assert_eq!(drawn(&vec![Row::showing(Picture::Showing(None))]), Drawn::ThePictureAlone);
    assert_eq!(drawn(&vec![Row::showing(Picture::Playing(None))]), Drawn::ThePictureAlone);
}

#[test]
fn a_picture_with_the_cards_own_rows_under_it_is_the_card_still_being_used() {
    let with_it = vec![Row::showing(Picture::Showing(None)), heading("beach.jpg")];

    assert_eq!(drawn(&with_it), Drawn::TheCardWithIt);
}

#[test]
fn a_card_that_is_only_rows_is_not_a_picture_that_has_gone_quiet() {
    assert_eq!(drawn(&Vec::new()), Drawn::TheCardWithIt);
    assert_eq!(drawn(&vec![heading("Screen")]), Drawn::TheCardWithIt);
}

#[test]
fn the_highlight_opens_on_something_it_can_act_on() {
    let rows = vec![heading("Search with"), chooseable("DuckDuckGo")];

    assert_eq!(opening_row(&rows, 0), 1);
}

#[test]
fn a_row_held_at_a_level_is_something_to_act_on() {
    let rows = vec![heading("Screen").leveled(), chooseable("Balanced")];

    assert_eq!(opening_row(&rows, 0), 0);
}

#[test]
fn a_card_that_names_the_row_it_opens_on_opens_there() {
    let rows = vec![heading("Blue Monday"), chooseable("0:31").leveled(), chooseable("the transport").chief()];

    assert_eq!(opening_row(&rows, 0), 2);
}

#[test]
fn a_thumb_that_walked_off_it_is_left_where_it_walked_to() {
    let rows = vec![heading("Blue Monday"), chooseable("0:31").leveled(), chooseable("the transport").chief()];

    assert_eq!(opening_row(&rows, 1), 1);
}

#[test]
fn a_card_cannot_open_on_a_row_nothing_happens_to() {
    let rows = vec![heading("Blue Monday").chief(), chooseable("0:31")];

    assert_eq!(opening_row(&rows, 0), 1);
}

#[test]
fn where_you_were_standing_is_where_you_stay() {
    let rows = vec![chooseable("one"), chooseable("two"), chooseable("three")];

    assert_eq!(opening_row(&rows, 2), 2);
}

#[test]
fn a_tab_with_nothing_to_act_on_stays_where_it_was_put() {
    assert_eq!(opening_row(&vec![heading("Nothing else is playing")], 0), 0);
    assert_eq!(opening_row(&Vec::new(), 0), 0);
}

#[test]
fn the_dpad_steps_over_the_name_of_what_a_list_is_about() {
    let rows = vec![
        chooseable("\u{2039} Pictures"),
        Row::naming("holiday.jpg", Aside("2.4 MB")),
        chooseable("Open"),
        chooseable("Delete"),
    ];

    assert_eq!(walked(&rows, 0, Step(1)), 2);
    assert_eq!(walked(&rows, 2, Step(-1)), 0);
}

#[test]
fn a_step_past_the_end_of_a_list_stays_where_it_was() {
    let rows = vec![chooseable("Open"), chooseable("Delete"), heading("Nothing else")];

    assert_eq!(walked(&rows, 1, Step(1)), 1);
    assert_eq!(walked(&rows, 0, Step(-1)), 0);
}

#[test]
fn the_dpad_steps_over_the_panel_saying_a_list_is_empty() {
    let rows = vec![chooseable("\u{2039} Music"), Row::nothing("Nothing in /home/music"), chooseable("Open the folder")];

    assert_eq!(walked(&rows, 0, Step(1)), 2);
    assert_eq!(walked(&rows, 2, Step(-1)), 0);
}

#[test]
fn the_line_to_type_into_is_where_a_menu_opens() {
    let line = Row { typing: true, ..Row::said("", Aside("")) };
    let rows = vec![line, chooseable("Files")];

    assert_eq!(opening_row(&rows, 0), 0);
}

#[test]
fn a_bar_with_nothing_to_be_along_is_empty_rather_than_a_division_by_nothing() {
    assert_eq!(Bar { at: 90, of: 0 }.filled(200), 0, "no length known yet");
    assert_eq!(Bar { at: 500, of: 200 }.filled(200), 200, "past the end");
}

fn laid(card: &Card) -> Laid {
    Laid { start: rows_start(card, Opened::No, false), stage: 0, scroll: 0, bottom: card.y + card.height }
}

fn highlights(card: &Card, rows: &Vec<Row>, at: Option<u32>) -> Vec<i32> {
    placed_rows(rows.len(), laid(card))
        .iter()
        .filter(|band| band.whole)
        .map(|band| frame(&rows[band.at as usize], band.at, band.top, band.tall, card, Opened::No, at == Some(band.at), Beside::No, false, 10))
        .filter(|drawn| drawn.lit == Lit::Row && drawn.ground.map(|ground| ground.fill) == Some(Paint::Pink))
        .map(|drawn| drawn.top)
        .collect()
}

#[test]
fn highlight_selects_the_right_row() {
    let card = card_for(1024, 640);
    let rows = vec![chooseable("a"), chooseable("b"), chooseable("c")];
    let lit = highlights(&card, &rows, Some(1));

    assert_eq!(lit.len(), 1, "exactly one row is standing under the highlight");
    assert_eq!(lit[0], rows_start(&card, Opened::No, false) + 52 + 4 / 2, "the highlight is behind the row the pad is standing on");
}

#[test]
fn no_highlight_when_at_is_none() {
    let card = card_for(1024, 640);
    let rows = vec![chooseable("x"), chooseable("y")];

    assert!(highlights(&card, &rows, None).is_empty());
}

#[test]
fn a_strip_of_buttons_draws_each_one_where_a_finger_can_press_it() {
    let card = card_for(1024, 640);
    let (left, right) = inside(&card);
    let presses = vec![press(Icon::Previous), press(Icon::Play), press(Icon::Next)];
    let spots = press_spots(&presses, PressRoom { from: left, to: right, top: 200, height: 52 });

    assert_eq!(spots.len(), 3, "a transport with three buttons drew {} of them", spots.len());
    assert!(spots.windows(2).all(|two| two[0].x < two[1].x), "the buttons stand in order");
    assert_eq!(spots.iter().map(|spot| spot.which).collect::<Vec<_>>(), vec![0, 1, 2]);

    let rows = vec![Row::pressing(presses, 1)];
    let mut state = Steering::new(0);
    state.at = Some(0);
    state.pressing = Some((0, 2));

    assert_eq!(acting(&state, &rows, 0, Selection::Chose, false), Acting::Press(2), "a tap on next pressed something else");
}

#[test]
fn a_strip_of_buttons_stands_on_the_card_with_no_row_behind_it() {
    let card = card_for(1024, 640);
    let row = Row::pressing(vec![press(Icon::Previous), press(Icon::Play), press(Icon::Next)], 1);
    let drawn = frame(&row, 0, 200, 52, &card, Opened::No, true, Beside::No, false, 10);

    assert_eq!(drawn.ground, None, "the buttons sit on a row");
}

#[test]
fn a_row_of_written_keys_fills_the_card_from_edge_to_edge() {
    let card = card_for(1024, 640);
    let (left, right) = inside(&card);
    let keys = vec![written_key("7"), written_key("8"), written_key("9"), written_key("+")];
    let spots = press_spots(&keys, PressRoom { from: left, to: right, top: 200, height: 52 });
    let first = spots.first().expect("the keypad drew no keys");
    let last = spots.last().expect("the keypad drew no keys");
    let reaches = last.x + last.wide as i32;

    assert_eq!(spots.len(), 4);
    assert!((first.x - left).abs() <= 4, "the first key stands at {}, off the edge at {left}", first.x);
    assert!((right - reaches).abs() <= 4, "the last key ends at {reaches}, short of the edge at {right}");
}

#[test]
fn a_trailing_headline_draws_its_number_at_the_right_and_under_the_title_strip() {
    let card = card_for(1024, 640);
    let (_left, right) = inside(&card);
    let top = rows_start(&card, Opened::No, false);
    let places = trailing_places(&card, top, 52 * 3, 20, 80, 60);
    let keys_top = top + 52 * 3;

    assert!(places.big.x > right / 2, "the number stands at {} rather than at the right", places.big.x);
    assert!(places.big.x + 80 <= right + 4, "the number runs past the edge");
    assert!(places.big.y + 60 <= keys_top, "the number runs into the keys");
    assert!(places.big_height > 0);
    assert!(places.big.y >= card.y + 3, "the number rises out of the card");
}

#[test]
fn a_bar_that_steps_holds_its_buttons_at_its_own_ends_and_its_length_past_them() {
    let row = Row::new("0:50", Aside("2:37")).picturing(Picture::Bar(Bar { at: 50, of: 157 })).leveled().seeking();
    let drawn = bar_drawn(&row, 0, 200, 48, 800, 33, 60);
    let less = drawn.less.expect("the minus");
    let seek = drawn.seek.expect("the bar");

    assert!(less.x < seek.x, "the minus is not before the bar: {less:?} {seek:?}");
    assert!(seek.x + seek.wide as i32 <= 800, "the bar runs past where the plus and the length stand");
}

#[test]
fn a_bar_on_the_lit_row_fills_in_the_dark_rather_than_pink_on_pink() {
    let card = card_for(1024, 640);
    let row = Row::new("0:25", Aside("1:40")).picturing(Picture::Bar(Bar { at: 25, of: 100 })).seeking();
    let lit = frame(&row, 0, 200, 52, &card, Opened::No, true, Beside::No, false, 10);
    let drawn = bar_drawn(&row, 0, lit.top, lit.tall, lit.far, lit.words_x, 60);
    let track = drawn.track.expect("a bar that seeks has a track");

    assert_eq!(lit.ground.map(|ground| ground.fill), Some(Paint::Pink));
    assert_eq!(lit.ink, Paint::Night, "the lit row's bar is not filled in the dark");
    assert_eq!(track.filled, track.wide / 4);
}

#[test]
fn a_question_standing_over_the_list_is_what_is_drawn() {
    let card = card_for(1024, 640);
    let answers = answer_reach(&card, 2);

    assert_eq!(answers.len(), 2, "both answers can be pressed by a thumb");
    assert!(answers.iter().all(|answer| matches!(answer.lands, Lands::Answer(_))));
    assert!(answers[0].x < answers[1].x);
}

#[test]
fn a_cell_with_an_icon_draws_the_icon_before_its_words() {
    let placed = cell_words(17, 300, 200, 52, Some(Said { wide: 28, tall: 28 }), Said { wide: 120, tall: 20 });

    match placed {
        CellWords { glyph: Some(glyph), words } => assert!(glyph.x < words.x, "the icon comes after its words"),
        CellWords { glyph: None, .. } => panic!("the icon is missing"),
    }
    assert_eq!(placed.glyph, Some(At { x: 17 + (300 - 156) / 2, y: 212 }));
    assert_eq!(placed.words, At { x: 17 + 72 + 28 + 8, y: 216 });
}

#[test]
fn a_strip_of_presses_takes_the_one_being_stood_on() {
    let rows = vec![Row::pressing(vec![press(Icon::Previous), press(Icon::Play), press(Icon::Next)], 2)];
    let mut state = Steering::new(0);
    state.at = Some(0);

    assert_eq!(acting(&state, &rows, 0, Selection::Chose, false), Acting::Press(2));
}

#[test]
fn the_front_tab_stands_on_a_round_as_wide_as_its_words_in_the_middle_of_its_cell() {
    let card = card_for(1024, 640);
    let titles = vec![Said { wide: 60, tall: 20 }, Said { wide: 90, tall: 20 }, Said { wide: 40, tall: 20 }];
    let chosen = vec![Said { wide: 64, tall: 22 }, Said { wide: 96, tall: 22 }, Said { wide: 44, tall: 22 }];
    let places = header_places(&card, 3, 1, 0, 3, Opened::No, Leaving::No, &titles, &chosen);

    assert_eq!(places.title, None);
    assert_eq!(places.tabs.len(), 3);
    let front = &places.tabs[1];
    let pill = front.pill.expect("the tab in front stands on a round");
    assert!(front.bold);
    assert_eq!(front.ink, Paint::Night);
    assert_eq!(pill.fill, Paint::Pink);
    assert_eq!(pill.area.wide, 96 + 32);
    assert_eq!(pill.area.x, front.cell.x + (front.cell.wide as i32 - 128) / 2);
    assert_eq!(front.words.x, front.cell.x + (front.cell.wide as i32 - 96) / 2);
    assert!(places.tabs[0].pill.is_none() && !places.tabs[0].bold && places.tabs[0].ink == Paint::Soft);
    assert!(places.tabs[0].cell.x < front.cell.x && front.cell.x < places.tabs[2].cell.x);

    let leaving = header_places(&card, 3, 1, 0, 3, Opened::No, Leaving::Standing, &titles, &chosen);
    assert_eq!(leaving.tabs[1].pill.map(|pill| pill.fill), Some(Paint::Ground));
    assert_eq!(leaving.tabs[1].ink, Paint::Text);

    let opened = header_places(&card, 3, 1, 0, 3, Opened::Expanded, Leaving::No, &titles, &chosen);
    assert!(opened.title.is_none() && opened.tabs.is_empty());
}

#[test]
fn a_card_with_one_tab_writes_its_title_where_the_tabs_would_stand() {
    let card = card_for(1024, 640);
    let (left, right) = inside(&card);
    let places = header_places(&card, 1, 0, 0, 3, Opened::No, Leaving::No, &vec![], &vec![Said { wide: 80, tall: 24 }]);
    let title = places.title.expect("the one tab's title is written");

    assert!(places.tabs.is_empty());
    assert_eq!(title.x, left + 16);
    assert_eq!(title.wide as i32, right - 48 - 4 - left);
    assert_eq!(title.tall, 24);
}
