use console_panel::tab::{keep, last, read};

#[test]
fn the_name_on_the_tab_is_what_is_read() {
    assert_eq!(read("Wi-Fi\n"), Some("Wi-Fi".to_string()));
    assert_eq!(read("  Game Mode  "), Some("Game Mode".to_string()));
}

#[test]
fn a_file_saying_nothing_names_no_tab() {
    assert_eq!(read(""), None);
    assert_eq!(read("\n  \n"), None);
}

#[test]
fn a_tab_is_written_again_only_when_it_changed() {
    assert_eq!(keep("", &None), None);
    assert_eq!(keep("Sound", &Some("Sound".to_string())), None);
    assert_eq!(keep("Sound", &Some("Wi-Fi".to_string())), Some("Sound\n".to_string()));
    assert_eq!(keep("Sound", &None), Some("Sound\n".to_string()));
}

#[test]
fn the_tab_a_panel_was_left_on_is_the_one_its_note_names() {
    assert_eq!(last(Some("Wi-Fi\n")), Some("Wi-Fi".to_string()));
    assert_eq!(last(Some("  ")), None);
    assert_eq!(last(None), None);
    let written = keep("Game Mode", &None).expect("a tab to keep");
    assert_eq!(last(Some(&written)), Some("Game Mode".to_string()));
}
