use console_panel::page::{Aside, Beside, Row};
use console_panel::surface::{
    card_on, frame, header_reach, placed_rows, rows_start, what_it_drew, Framing, Laid, Lands, Opened, Reach,
    SurfaceSize,
};
use console_panel::telling::{reachable, Bare, Offers, Reachable, Scrolls, Standing};

fn touching_of(rows: &Vec<Row>, at: Option<u32>) -> Vec<Reach> {
    let card = card_on(SurfaceSize { width: 1024, height: 640 }, Opened::No, Framing::Card);
    let mut touching = header_reach(&card, 1, 0, 0, 5, Opened::No);
    let list = Laid { start: rows_start(&card, Opened::No, false), stage: 0, scroll: 0, bottom: card.y + card.height };

    for band in placed_rows(rows.len(), list) {
        let lit = at == Some(band.at);
        let drawn = frame(&rows[band.at as usize], band.at, band.top, band.tall, &card, Opened::No, lit, Beside::No, false, 0);

        match drawn.what_else {
            Some(button) => touching.push(button),
            None => {},
        }

        match band.whole {
            true => touching.push(Reach {
                lands: Lands::Row(band.at),
                x: drawn.left,
                y: band.top,
                wide: u32::try_from(drawn.right - drawn.left).expect("a width"),
                tall: u32::try_from(band.tall).expect("a height"),
            }),
            false => {},
        }
    }

    touching
}

#[test]
fn what_a_card_says_it_drew_names_every_part_a_hand_could_land_on() {
    let row = Row::said("Ferry.jpg", Aside("2.1 MB")).offering();
    let rows = vec![row];
    let touching = touching_of(&rows, Some(0));
    let told = what_it_drew("files", "Files", Opened::No, (1024, 640), &touching, &rows, Some(0), Beside::No);

    assert_eq!(told.tab, "Files");
    assert!(told.wearing("shut").is_some(), "a card with no way out drawn on it");
    assert!(told.wearing("tab").is_none(), "one tab is the panel's title, not a strip with nothing to turn to");

    let line = told.line_saying("Ferry.jpg").expect("the row");

    assert_eq!(line.standing, Standing::On);
    assert_eq!(line.offers, Offers::Yes);
    assert!(line.wearing("else").is_some(), "a row offering something and drawing no mark for it");

    for spot in told.every_spot() {
        assert_eq!(reachable(spot, told.room), Reachable::Yes, "{} at {:?} of {:?} is off the glass", spot.name, spot.at, spot.big);
    }
}

#[test]
fn each_row_a_hand_can_land_on_is_told_once_in_order_with_its_own_parts() {
    let rows = vec![
        Row::said("Alpha", Aside("")),
        Row::said("Bravo", Aside("on")).offering(),
        Row::said("Charlie", Aside("")),
    ];
    let touching = touching_of(&rows, Some(1));
    let told = what_it_drew("menu", "Menu", Opened::Expanded, (800, 600), &touching, &rows, Some(1), Beside::Yes);
    let at: Vec<usize> = told.lines.iter().map(|line| line.at).collect();

    assert_eq!(at, vec![0, 1, 2]);
    assert_eq!(told.panel, "menu");
    assert_eq!(told.lines[1].standing, Standing::Beside);
    assert_eq!(told.lines[0].standing, Standing::No);
    assert_eq!(told.lines[0].bare, Bare::No);
    assert_eq!(told.lines[1].spots.len(), 2, "a row offering more is a row and the mark beside it");
    assert!(told.lines.iter().all(|line| line.spots.iter().all(|spot| spot.scrolls == Scrolls::Yes)));
    assert!(told.spots.iter().all(|spot| spot.scrolls == Scrolls::No));
    assert_eq!(told.spots.len(), 1, "a card of one tab offers only the way back");
}

#[test]
fn a_part_belonging_to_no_row_on_the_card_is_not_told() {
    let rows = vec![Row::said("Alpha", Aside(""))];
    let stray = vec![Reach { lands: Lands::Row(7), x: 0, y: 0, wide: 10, tall: 10 }];
    let told = what_it_drew("menu", "Menu", Opened::No, (800, 600), &stray, &rows, None, Beside::No);

    assert!(told.lines.is_empty());
    assert!(told.spots.is_empty());
}
