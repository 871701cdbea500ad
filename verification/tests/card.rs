use console_panel::card::{Card, Door};
use console_panel::chooser::Again;

#[test]
fn a_door_closes_unless_it_was_asked_not_to() {
    let door = Door::closing("menu");

    assert_eq!(door.again, Again::Closes, "a bar icon tapped twice has to put its panel away");
}

#[test]
fn a_door_asked_to_keep_keeps_its_name_and_its_rule() {
    let door = Door::new("settings", Again::Keeps);

    assert_eq!(door.name, "settings");
    assert_eq!(door.again, Again::Keeps);
}

#[test]
fn a_card_says_nothing_about_a_tab_until_it_is_told_one() {
    let card = Card::new(std::sync::Arc::new(Vec::<String>::new));

    assert_eq!(card.start, None, "opened with nothing named, a panel opens where it was left");
    assert_eq!(card.column, 0);

    let card = card.opening_at(Some("Sound"));

    assert_eq!(card.start.as_deref(), Some("Sound"));
}

#[test]
fn a_card_keeps_what_it_was_given_as_it_is_told_more() {
    let card = Card::new(7u8).under(3).opening_at(Some("Wi-Fi")).shutting("stop the actor");

    assert_eq!(card.build, 7);
    assert_eq!(card.column, 3);
    assert_eq!(card.start.as_deref(), Some("Wi-Fi"));
    assert_eq!(card.done, "stop the actor");

    let card = card.opening_at(None);

    assert_eq!(card.start, None);
    assert_eq!(card.column, 3);
}
