use console_panel::strip::{along, fits, room, showing, Card, Cell, Stop, Tabs, EDGE, MARGIN, PAD};

#[test]
fn a_strip_with_room_for_all_of_them_starts_at_the_first() {
    assert_eq!(showing(Tabs { many: 5, here: 3, from: 0, fits: 5 }), 0..5);
    assert_eq!(showing(Tabs { many: 5, here: 3, from: 2, fits: 9 }), 0..5);
}

#[test]
fn the_run_moves_as_little_as_it_can() {
    let run = |here, from| showing(Tabs { many: 5, here, from, fits: 3 });

    assert_eq!(run(0, 0), 0..3, "standing on the first");
    assert_eq!(run(2, 0), 0..3, "the third is already showing");
    assert_eq!(run(3, 0), 1..4, "one step, because it had to");
    assert_eq!(run(1, 2), 1..4, "back the other way, one step");
}

#[test]
fn the_run_never_hangs_off_either_end() {
    assert_eq!(showing(Tabs { many: 5, here: 4, from: 0, fits: 3 }), 2..5);
    assert_eq!(showing(Tabs { many: 5, here: 4, from: 9, fits: 3 }), 2..5);
}

#[test]
fn a_tab_and_a_gap_is_what_a_tab_costs() {
    assert_eq!(fits(100, Cell(20)), 4, "four tabs and the gaps between them");
    assert_eq!(fits(0, Cell(20)), 1, "somewhere to stand, whatever the room");
}

#[test]
fn the_room_is_the_card_less_everything_that_is_not_a_tab() {
    assert_eq!(room(Card { width: 900, spent: 120 }), 900 - 2 * EDGE - 2 * MARGIN - 2 * PAD - 120);
}

#[test]
fn a_shoulder_walks_the_tabs_and_then_the_way_out() {
    assert_eq!(along(3, Stop::Tab(0), 1), Stop::Tab(1));
    assert_eq!(along(3, Stop::Tab(2), 1), Stop::Outside);
    assert_eq!(along(3, Stop::Outside, -1), Stop::Tab(2));
}

#[test]
fn the_walk_stops_at_both_ends() {
    assert_eq!(along(3, Stop::Tab(0), -1), Stop::Tab(0));
    assert_eq!(along(3, Stop::Outside, 1), Stop::Outside);
}

#[test]
fn the_way_out_is_there_on_a_panel_with_one_tab() {
    assert_eq!(along(1, Stop::Tab(0), 1), Stop::Outside);
    assert_eq!(along(1, Stop::Outside, -1), Stop::Tab(0));
}

#[test]
fn a_tab_wider_than_the_strip_still_has_one_place_to_stand() {
    assert_eq!(fits(10, Cell(500)), 1);
    assert_eq!(fits(100, Cell(-30)), 1);
}

#[test]
fn the_run_always_holds_the_tab_in_front() {
    for here in 0..7u32 {
        for from in 0..9u32 {
            let run = showing(Tabs { many: 7, here, from, fits: 3 });
            assert!(run.start <= here && here < run.end);
            assert_eq!(run.end - run.start, 3);
            assert!(run.end <= 7);
        }
    }
}
