use console_panel::left_open::{note, read, spelled, LeftOpen};

#[test]
fn a_panel_and_its_arguments_come_back_as_they_went_in() {
    let open = LeftOpen {
        who: "settings-panel".to_string(),
        arguments: vec!["Sound".to_string(), "two words".to_string(), String::new()],
    };
    let said = spelled(&open);

    assert_eq!(read(&said), Some(open));
}

#[test]
fn a_panel_put_away_leaves_nothing_to_put_back() {
    assert_eq!(read(""), None);
}

#[test]
fn a_panel_is_spelled_as_its_words_between_nuls() {
    let open = LeftOpen { who: "menu".to_string(), arguments: vec!["a".to_string()] };

    assert_eq!(spelled(&open), "menu\0a".to_string());
    assert_eq!(spelled(&LeftOpen { who: "menu".to_string(), arguments: Vec::new() }), "menu".to_string());
}

#[test]
fn the_note_is_the_panels_own() {
    let n = note();

    assert_eq!(n.program, "panels");
    assert_eq!(n.called, "left-open");
}
