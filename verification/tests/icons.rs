use console_panel::icons::{Icon, EVERY};

#[test]
fn no_two_icons_ask_for_the_same_name() {
    let mut names: Vec<&str> = EVERY.iter().map(|icon| icon.name()).collect();
    names.sort_unstable();
    let mut once = names.clone();
    once.dedup();

    assert_eq!(once, names, "two variants ask for one name");
}

#[test]
fn every_name_is_one_a_theme_could_have() {
    for icon in EVERY {
        let name = icon.name();

        assert!(
            name.chars().all(|letter| letter.is_ascii_lowercase() || letter == '-'),
            "{name} is not the shape of an icon name"
        );
    }
}

#[test]
fn an_icon_has_one_glyph_of_its_own() {
    assert_eq!(Icon::Play.name(), "media-playback-start-symbolic");
    assert!(!Icon::Play.glyph().is_empty());
    assert_ne!(Icon::Play.glyph(), Icon::Pause.glyph());
}
