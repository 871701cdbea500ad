use console_panel::surface::{scroll_room, widest_tab, TAB_LEAST};
use console_panel::fitting::{BREATH, ROW, STRIP};
use console_panel::icons::Icon;
use console_panel::page::{Active, Aside, Bar, Beside, ButtonStyle, Cell, Face, Picture, Placed, Press, Row};
use console_panel::surface::{
    answer_reach, bar_drawn, headline_places, icon_ink, picture_square, trailing_places, At, HeadlineSaid, card_ground, card_on, caret, centred, middle, note_spot, selected_mark, Area, Filled, cell_spots, frame, BarDrawn, Track, header_reach, line_end, placed_rows, Frame, Ground, Lit, Paint, press_spots, rows_end, rows_start, stage, Band, Card, Framing, Laid, Opened,
    PressRoom, PressSpot, Reach, Lands, Round, SurfaceSize, CellSpot, OVER_ROWS,
};

fn said_row(says: &str) -> Row {
    Row::said(says, Aside(""))
}

fn card_for(wide: i32, tall: i32) -> Card {
    card_on(SurfaceSize { width: wide, height: tall }, Opened::No, Framing::Card)
}

fn laid(card: &Card, stage: i32, scroll: i32) -> Laid {
    Laid { start: rows_start(card, Opened::No, false), stage, scroll, bottom: card.y + card.height }
}

#[test]
fn only_a_page_that_opens_on_a_picture_gives_its_first_row_the_room() {
    let looked = Row::showing(Picture::Showing(None));
    let playing = Row::showing(Picture::Playing(None));
    let room = ROW.saturating_mul(10);

    assert_eq!(stage(&vec![looked, said_row("a"), said_row("b")], room), ROW.saturating_mul(7));
    assert_eq!(stage(&vec![playing], room), ROW.saturating_mul(9));
    assert_eq!(stage(&vec![said_row("a"), said_row("b")], room), 0);
    assert_eq!(stage(&Vec::new(), room), 0);
}

#[test]
fn a_picture_on_a_list_already_too_long_for_the_card_is_given_no_more_room() {
    let looked = Row::showing(Picture::Showing(None));

    assert_eq!(stage(&vec![looked, said_row("a")], ROW), 0);
}

#[test]
fn the_list_starts_under_the_strip_and_the_line_typed_into() {
    let card = card_for(1024, 640);

    assert_eq!(rows_start(&card, Opened::No, false), card.y + STRIP + OVER_ROWS);
    assert_eq!(rows_start(&card, Opened::No, true), card.y + STRIP + OVER_ROWS + ROW);
    assert_eq!(rows_start(&card, Opened::Expanded, true), card.y);
    assert_eq!(rows_end(&card, Opened::No), card.y + card.height - BREATH);
    assert_eq!(rows_end(&card, Opened::Expanded), card.y + card.height);
}

#[test]
fn rows_are_placed_at_expected_positions() {
    let card = card_for(1024, 640);
    let rows_start = card.y + STRIP + 10;
    let rows = placed_rows(3, laid(&card, 0, 0));

    assert_eq!(rows.len(), 3, "one touching per row");

    for (index, band) in rows.iter().enumerate() {
        let expected_y = rows_start + i32::try_from(index).expect("an index").saturating_mul(ROW);

        assert_eq!(band.top, expected_y, "row {index} should be at y={expected_y}");
        assert!(band.whole);
    }
}

#[test]
fn a_row_scrolled_half_out_of_view_is_drawn_and_cut_at_the_edge() {
    let card = card_for(1024, 640);
    let list = laid(&card, 0, ROW / 2);
    let rows = placed_rows(30, list);

    assert_eq!(rows.first().map(|band| band.at), Some(0), "the first row is half in view and was not drawn");
    assert_eq!(rows.first().map(|band| band.whole), Some(false), "half a row is not a row a hand can land on");
    assert_eq!(rows.first().map(|band| band.top), Some(list.start - ROW / 2));

    for band in &rows {
        assert!(band.top + band.tall > list.start && band.top < list.bottom, "{band:?} is off the card");

        match band.whole {
            true => assert!(band.top >= list.start && band.top + band.tall <= list.bottom),
            false => {},
        }
    }

    let last = rows.last().expect("rows");

    assert!(last.at < 29, "the rows past the card are not drawn");
}

#[test]
fn the_first_row_takes_the_stage_and_pushes_the_rest_down() {
    let list = Laid { start: 100, stage: 200, scroll: 0, bottom: 1000 };
    let rows = placed_rows(3, list);

    assert_eq!(
        rows,
        vec![
            Band { at: 0, top: 100, tall: ROW + 200, whole: true },
            Band { at: 1, top: 100 + ROW + 200, tall: ROW, whole: true },
            Band { at: 2, top: 100 + 2 * ROW + 200, tall: ROW, whole: true },
        ]
    );
}

#[test]
fn a_list_scrolled_past_its_first_rows_draws_from_the_first_in_view() {
    let list = Laid { start: 0, stage: 0, scroll: 2 * ROW, bottom: 3 * ROW };
    let rows = placed_rows(10, list);
    let at: Vec<u32> = rows.iter().map(|band| band.at).collect();

    assert_eq!(at, vec![2, 3, 4]);
    assert!(rows.iter().all(|band| band.whole));
    assert_eq!(placed_rows(0, list), Vec::new());
}

fn press(placed: Placed) -> Press {
    Press { face: Face::Glyph(Icon::Play), now: Active::No, chief: false, placed, style: ButtonStyle::Gray }
}

fn shows(face: Face, placed: Placed) -> Press {
    Press { face, ..press(placed) }
}

#[test]
fn a_press_put_in_the_corner_stands_at_the_far_end_and_the_rest_stay_in_the_middle() {
    let presses = vec![press(Placed::Among), press(Placed::Among), press(Placed::Corner)];
    let spots = press_spots(&presses, PressRoom { from: 0, to: 1000, top: 0, height: 60 });
    let far = |which: u32| {
        spots
            .iter()
            .find(|spot| spot.which == which)
            .map(|spot| spot.x + i32::try_from(spot.wide).expect("a width"))
            .expect("the press was drawn")
    };

    assert_eq!(far(2), 1000, "the corner press is not at the end of the row");
    assert!(far(1) < 600, "the presses in the middle made room for the one in the corner");
    assert!(far(0) > 400, "the presses in the middle were pushed to the start");
}

#[test]
fn a_strip_of_presses_stands_in_the_middle_a_gap_between_each_two() {
    let presses = vec![press(Placed::Among), press(Placed::Among), press(Placed::Among)];
    let spots = press_spots(&presses, PressRoom { from: 100, to: 600, top: 40, height: 52 });

    // Three presses of 72 with two gaps of 8 take 232 of the 500, so the
    // first stands 134 in.
    assert_eq!(
        spots,
        vec![
            PressSpot { which: 0, x: 234, y: 44, wide: 72, tall: 44 },
            PressSpot { which: 1, x: 314, y: 44, wide: 72, tall: 44 },
            PressSpot { which: 2, x: 394, y: 44, wide: 72, tall: 44 },
        ]
    );
}

#[test]
fn written_presses_share_the_strip_and_swatches_are_a_finger_wide() {
    let written_presses =
        vec![shows(Face::Written("Yes".to_string()), Placed::Among), shows(Face::Written("No".to_string()), Placed::Among)];
    let swatch_presses = vec![shows(Face::Swatch(1), Placed::Among), shows(Face::Swatch(2), Placed::Among)];
    let written = press_spots(&written_presses, PressRoom { from: 0, to: 408, top: 0, height: 60 });

    assert_eq!(written.iter().map(|spot| (spot.x, spot.wide)).collect::<Vec<_>>(), vec![(0, 200), (208, 200)]);

    let swatches = press_spots(&swatch_presses, PressRoom { from: 0, to: 408, top: 0, height: 60 });

    assert!(swatches.iter().all(|spot| spot.wide == 48));

    let crowded = press_spots(&written_presses, PressRoom { from: 0, to: 100, top: 0, height: 60 });

    assert!(crowded.iter().all(|spot| spot.wide == 72), "a written press is never narrower than one with an icon");
    assert_eq!(press_spots(&Vec::new(), PressRoom { from: 0, to: 100, top: 0, height: 60 }), Vec::new());
}

#[test]
fn a_row_of_cells_draws_every_cell_and_lights_the_one_that_is_now() {
    let before = Cell::new("8", Active::No);
    let today = Cell::new("9", Active::Yes);
    let spots = cell_spots(&vec![before, today], 100, 500, 52);

    assert!(spots[0].from < spots[1].from, "the cells stand in the order they were given");
    assert_eq!(spots[0], CellSpot { from: 100, each: 200, lit: None });
    assert_eq!(spots[1], CellSpot { from: 300, each: 200, lit: Some(Round { x: 374, wide: 52, tall: 52 }) }, "today is not lit");
}

#[test]
fn a_cell_with_an_icon_is_not_lit_with_a_round() {
    let today = Cell::new("Sun", Active::Yes).with_icon(Icon::Sun);
    let spots = cell_spots(&vec![today], 0, 90, 52);

    assert_eq!(spots, vec![CellSpot { from: 0, each: 90, lit: None }]);
    assert_eq!(cell_spots(&Vec::new(), 0, 90, 52), Vec::new());
}

#[test]
fn a_round_is_no_wider_than_its_cell() {
    let spots = cell_spots(&vec![Cell::new("a", Active::Yes), Cell::new("b", Active::No), Cell::new("c", Active::No)], 0, 90, 52);

    assert_eq!(spots[0].lit, Some(Round { x: 0, wide: 30, tall: 52 }));
    assert_eq!(spots.iter().map(|spot| spot.from).collect::<Vec<_>>(), vec![0, 30, 60]);
}

fn reach(lands: Lands, x: i32, wide: u32) -> Reach {
    Reach { lands, x, y: 17, wide, tall: 48 }
}

#[test]
fn the_strip_has_the_way_back_the_arrows_and_a_tab_for_each_page_shown() {
    // 1000 wide, less its edges, margins and padding and the three buttons,
    // leaves 798 for the tabs.
    let card = Card { x: 0, y: 0, width: 1000, height: 600 };

    assert_eq!(
        header_reach(&card, 3, 1, 0, 5, Opened::No),
        vec![
            reach(Lands::Back, 935, 48),
            reach(Lands::More(-1), 17, 48),
            reach(Lands::More(1), 883, 48),
            reach(Lands::Tab(0), 75, 266),
            reach(Lands::Tab(1), 341, 266),
            reach(Lands::Tab(2), 607, 266),
        ]
    );
}

#[test]
fn an_arrow_is_drawn_only_where_there_is_a_tab_to_turn_to() {
    let card = Card { x: 0, y: 0, width: 1000, height: 600 };
    let first = header_reach(&card, 3, 0, 0, 5, Opened::No);
    let last = header_reach(&card, 3, 2, 0, 5, Opened::No);

    assert!(!first.iter().any(|spot| spot.lands == Lands::More(-1)));
    assert!(first.iter().any(|spot| spot.lands == Lands::More(1)));
    assert!(last.iter().any(|spot| spot.lands == Lands::More(-1)));
    assert!(!last.iter().any(|spot| spot.lands == Lands::More(1)));
}

#[test]
fn a_card_with_one_tab_or_opened_out_has_only_the_way_back() {
    let card = Card { x: 0, y: 0, width: 1000, height: 600 };

    assert_eq!(header_reach(&card, 1, 0, 0, 5, Opened::No), vec![reach(Lands::Back, 935, 48)]);
    assert_eq!(header_reach(&card, 4, 1, 0, 5, Opened::Expanded), vec![reach(Lands::Back, 935, 48)]);
}

#[test]
fn only_the_tabs_that_fit_are_shown_from_where_the_strip_was_turned_to() {
    let card = Card { x: 0, y: 0, width: 1000, height: 600 };
    let tabs: Vec<Reach> =
        header_reach(&card, 9, 4, 3, 2, Opened::No).into_iter().filter(|spot| matches!(spot.lands, Lands::Tab(_))).collect();

    assert_eq!(tabs, vec![reach(Lands::Tab(3), 75, 399), reach(Lands::Tab(4), 474, 399)]);
}

#[test]
fn the_answers_to_a_question_stand_side_by_side_three_rows_under_it() {
    let card = Card { x: 0, y: 0, width: 1000, height: 600 };

    // The question starts inside the card's edge and margin, at 17, and is
    // 966 wide; two answers share it, a gap of 8 between them.
    assert_eq!(
        answer_reach(&card, 2),
        vec![
            Reach { lands: Lands::Answer(0), x: 17, y: 248, wide: 479, tall: 48 },
            Reach { lands: Lands::Answer(1), x: 504, y: 248, wide: 479, tall: 48 },
        ]
    );
    assert_eq!(answer_reach(&card, 0), Vec::new());
}

#[test]
fn a_lit_row_that_offers_more_wears_the_button_for_it_at_its_end() {
    let card = Card { x: 0, y: 0, width: 1000, height: 600 };
    let row = Row::said("Wi-Fi", Aside("On")).offering();
    let drawn = frame(&row, 2, 200, 52, &card, Opened::No, true, Beside::No, false, 10);

    assert_eq!(
        drawn,
        Frame {
            bleeds: false,
            left: 17,
            right: 983,
            top: 202,
            tall: 48,
            lit: Lit::Row,
            ground: Some(Ground { fill: Paint::Pink, edged: false }),
            ink: Paint::Night,
            quiet: Paint::Night,
            words_x: 33,
            what_else: Some(Reach { lands: Lands::Else(2), x: 935, y: 202, wide: 48, tall: 48 }),
            far: 923,
        }
    );

    let beside = frame(&row, 2, 200, 52, &card, Opened::No, true, Beside::Yes, false, 10);

    assert_eq!(beside.lit, Lit::Beside);
    assert_eq!(beside.ground, Some(Ground { fill: Paint::Ground, edged: true }));
    assert_eq!(beside.ink, Paint::Text);
}

#[test]
fn a_heading_wears_no_round_and_its_words_are_quiet() {
    let card = Card { x: 0, y: 0, width: 1000, height: 600 };
    let heading = Row::said("Section", Aside(""));
    let drawn = frame(&heading, 0, 100, 52, &card, Opened::No, false, Beside::No, false, 10);

    assert_eq!(drawn.ground, None);
    assert_eq!((drawn.ink, drawn.quiet), (Paint::Soft, Paint::Soft));
    assert_eq!(drawn.what_else, None);
    assert_eq!(drawn.far, 967);

    let marked = frame(&heading, 0, 100, 52, &card, Opened::No, false, Beside::No, true, 10);

    assert_eq!(marked.far, 940, "the mark of a selected row stands at its end");

    let opens = frame(&heading.clone().opening(), 0, 100, 52, &card, Opened::No, false, Beside::No, false, 10);

    assert_eq!(opens.far, 945, "the mark saying a row opens into more stands at its end");
}

#[test]
fn a_picture_looked_at_on_a_card_opened_out_runs_to_its_edges() {
    let card = Card { x: 0, y: 0, width: 1000, height: 600 };
    let looked = Row::showing(Picture::Showing(Some("/nowhere/a.png".to_string())));
    let drawn = frame(&looked, 0, 0, 600, &card, Opened::Expanded, false, Beside::No, false, 10);

    assert!(drawn.bleeds);
    assert_eq!((drawn.left, drawn.right, drawn.top, drawn.tall), (0, 1000, 0, 600));
    assert_eq!(drawn.ground, None);

    let in_a_card = frame(&looked, 0, 0, 600, &card, Opened::No, false, Beside::No, false, 10);

    assert!(!in_a_card.bleeds);
    assert_eq!((in_a_card.left, in_a_card.right), (17, 983));
}

#[test]
fn a_row_with_a_level_draws_its_two_marks_where_a_thumb_can_find_them() {
    let row = Row::said("Volume", Aside("40%")).leveled();
    let (nudges, end) = line_end(&row, 3, 100, 48, 900, 30, 800);

    // The mark that turns it up stands at the end of the row, the reading is
    // kept its room before it, and the mark that turns it down before that.
    assert_eq!(
        nudges,
        vec![
            Reach { lands: Lands::Nudge { row: 3, step: 1 }, x: 852, y: 100, wide: 48, tall: 48 },
            Reach { lands: Lands::Nudge { row: 3, step: -1 }, x: 732, y: 100, wide: 48, tall: 48 },
        ]
    );
    assert_eq!(end, 720, "the words run up to the mark that turns it down");
}

#[test]
fn what_a_row_says_beside_it_takes_at_most_half_the_row() {
    let row = Row::said("Wi-Fi", Aside("On"));

    assert_eq!(line_end(&row, 0, 100, 48, 900, 30, 800), (Vec::new(), 854));
    assert_eq!(line_end(&row, 0, 100, 48, 900, 500, 800), (Vec::new(), 484));
    assert_eq!(line_end(&Row::said("Wi-Fi", Aside("")), 0, 100, 48, 900, 30, 800), (Vec::new(), 900));
}

#[test]
fn a_bar_draws_how_far_along_it_is_and_a_tap_on_it_goes_there() {
    let row = Row::said("Film", Aside("")).picturing(Picture::Bar(Bar { at: 1, of: 4 })).seeking();
    let drawn = bar_drawn(&row, 5, 100, 48, 900, 33, 100);

    // The track starts three gaps after the words and runs to the end.
    assert_eq!(
        drawn,
        BarDrawn {
            less: None,
            track: Some(Track { x: 145, y: 121, wide: 755, thin: 6, filled: 188 }),
            seek: Some(Reach { lands: Lands::Seek { row: 5, from: 145, wide: 755 }, x: 145, y: 100, wide: 755, tall: 48 }),
        }
    );
}

#[test]
fn a_bar_that_steps_holds_its_turning_down_at_its_own_start() {
    let row = Row::said("Brightness", Aside("")).picturing(Picture::Bar(Bar { at: 4, of: 4 })).leveled();
    let drawn = bar_drawn(&row, 1, 100, 48, 900, 33, 100);

    assert_eq!(drawn.less, Some(Reach { lands: Lands::Nudge { row: 1, step: -1 }, x: 145, y: 100, wide: 48, tall: 48 }));
    assert_eq!(drawn.track, Some(Track { x: 201, y: 121, wide: 699, thin: 6, filled: 699 }), "a full bar is filled to its end");
    assert_eq!(drawn.seek, None, "a bar nobody can seek along takes no finger");
}

#[test]
fn a_bar_with_nothing_to_be_along_or_no_room_draws_no_track() {
    let row = Row::said("Film", Aside("")).picturing(Picture::Bar(Bar { at: 3, of: 0 }));

    assert_eq!(bar_drawn(&row, 0, 100, 48, 900, 33, 100).track.map(|track| track.filled), Some(0));
    assert_eq!(bar_drawn(&row, 0, 100, 48, 100, 33, 100), BarDrawn { less: None, track: None, seek: None });
    assert_eq!(bar_drawn(&Row::said("Film", Aside("")), 0, 100, 48, 900, 33, 100), BarDrawn { less: None, track: None, seek: None });
}

#[test]
fn a_card_on_the_screen_is_round_and_edged_and_opened_out_is_night() {
    assert_eq!(card_ground(Opened::No, Framing::Card), (16, Paint::Panel, true));
    assert_eq!(card_ground(Opened::No, Framing::Screen), (0, Paint::Panel, false));
    assert_eq!(card_ground(Opened::Expanded, Framing::Card), (0, Paint::Night, false));
}

#[test]
fn a_note_stands_in_the_middle_a_margin_above_the_bottom_of_the_card() {
    let card = Card { x: 100, y: 50, width: 800, height: 500 };

    assert_eq!(note_spot(&card, 168), Area { x: 400, y: 488, wide: 200, tall: 48 });
}

#[test]
fn the_caret_stands_after_what_was_typed_and_at_the_start_of_an_empty_line() {
    assert_eq!(caret(17, 92, Filled::Typed, 40), Area { x: 74, y: 104, wide: 2, tall: 24 });
    assert_eq!(caret(17, 92, Filled::Empty, 40), Area { x: 34, y: 104, wide: 2, tall: 24 });
}

#[test]
fn the_mark_on_a_selected_row_stands_at_the_end_of_its_words() {
    assert_eq!(selected_mark(923, 202, 48), Area { x: 908, y: 218, wide: 15, tall: 15 });
}

#[test]
fn words_stand_in_the_middle_of_their_box_and_no_wider_than_it() {
    let within = Area { x: 100, y: 50, wide: 200, tall: 48 };

    assert_eq!(centred(within, 60, 20), Area { x: 170, y: 64, wide: 62, tall: 20 });
    assert_eq!(centred(within, 300, 20), Area { x: 100, y: 64, wide: 200, tall: 20 }, "words too wide start at the box");
    assert_eq!(middle(100, 48, 20), 114);
    assert_eq!(middle(100, 48, 60), 94, "words taller than their band stand over its top");
}

#[test]
fn a_headline_draws_the_temperature_large_with_its_sky_beside_an_icon() {
    let card = Card { x: 0, y: 0, width: 1000, height: 600 };
    let said = HeadlineSaid { title_tall: 20, big_wide: 120, big_tall: 72, glyph_tall: 40, says_tall: 30, aside_tall: 20 };
    let places = headline_places(&card, 100, 200, said, true);

    assert_eq!(places.within, Area { x: 17, y: 102, wide: 966, tall: 196 });
    assert_eq!((places.title, places.subtitle), (At { x: 33, y: 118 }, At { x: 33, y: 138 }));
    assert_eq!(places.big, At { x: 33, y: 210 }, "the reading stands at the bottom of the round");
    assert_eq!(places.glyph, At { x: 185, y: 216 }, "the icon stands after the reading");
    assert_eq!(places.says, At { x: 233, y: 221 });
    assert_eq!(places.aside, At { x: 233, y: 256 });
    assert_eq!(places.picture, Some(Area { x: 549, y: 110, wide: 426, tall: 180 }), "a picture takes the far nine twentieths");
    assert_eq!(headline_places(&card, 100, 200, said, false).picture, None);
}

#[test]
fn a_trailing_headline_draws_its_number_at_the_right_and_its_title_on_the_same_line() {
    let card = Card { x: 0, y: 0, width: 1000, height: 600 };
    let places = trailing_places(&card, 100, 300, 20, 150, 100);

    assert_eq!(places.rule, Area { x: 17, y: 384, wide: 966, tall: 2 });
    assert_eq!(places.big_height, 216, "the number is written three times as tall as a headline's");
    assert_eq!(places.big, At { x: 829, y: 268 }, "the number ends at the right of the card");
    assert_eq!(places.title, At { x: 21, y: 348 }, "the title's foot is the number's");
    assert!(places.big.y + 100 <= places.rule.y, "the number stands over the rule");
}

#[test]
fn a_trailing_headline_in_a_short_band_is_written_as_tall_as_there_is_room() {
    let card = Card { x: 0, y: 0, width: 1000, height: 600 };

    assert_eq!(trailing_places(&card, 100, 40, 20, 150, 100).big_height, 8);
    assert_eq!(trailing_places(&card, 100, 20, 20, 150, 100).big_height, 1, "never written at no height at all");
}

#[test]
fn an_icon_beside_a_row_is_drawn_rather_than_left_as_a_gap() {
    // The square at the front of a row, in a line 48 high from 202, starts
    // just inside a row at 17 and stands in the middle of it down.
    assert_eq!(picture_square(17, 202, 48), Area { x: 29, y: 210, wide: 32, tall: 32 });
    assert_eq!(icon_ink(Lit::Row), Paint::Night);
    assert_eq!(icon_ink(Lit::Beside), Paint::Pink);
    assert_eq!(icon_ink(Lit::No), Paint::Pink);
}

#[test]
fn a_tab_is_as_wide_as_the_widest_title_with_its_padding_and_never_narrower_than_the_least() {
    assert_eq!(widest_tab(&vec![]).0, TAB_LEAST);
    assert_eq!(widest_tab(&vec![10, 20]).0, TAB_LEAST, "short titles still get the least width");
    assert_eq!(widest_tab(&vec![90, 140, 100]).0, 152, "the widest, with six either side");
    assert_eq!(widest_tab(&vec![u32::MAX]).0, i32::MAX, "held at the end of what a width can be");
}

#[test]
fn the_rows_scroll_in_what_is_left_under_the_strip_and_the_typed_line() {
    let card = Card { x: 0, y: 100, width: 600, height: 500 };

    assert_eq!(scroll_room(&card, false), 500 - 82 - 10);
    assert_eq!(scroll_room(&card, true), 500 - 82 - 10 - 52);
    assert_eq!(rows_start(&card, Opened::No, true) + scroll_room(&card, true), 600);
    assert_eq!(scroll_room(&Card { x: 0, y: 0, width: 10, height: 10 }, true), 10 - 82 - 10 - 52);
}

#[test]
fn every_visible_row_gets_a_touching_entry() {
    let card = card_for(1024, 640);
    let rows = placed_rows(3, laid(&card, 0, 0));

    assert_eq!(rows.iter().filter(|band| band.whole).count(), 3, "one touching per row");
}

#[test]
fn the_line_to_type_in_stands_over_the_rows_and_pushes_them_down() {
    let card = card_for(1024, 640);
    let list = Laid { start: rows_start(&card, Opened::No, true), stage: 0, scroll: 0, bottom: card.y + card.height };
    let rows = placed_rows(1, list);

    let Some(first) = rows.first() else { panic!("a page with one row drew no row") };

    assert_eq!(
        first.top,
        rows_start(&card, Opened::No, false).saturating_add(ROW),
        "the rows begin a line below where they would without one to type in"
    );
}
