use console_panel::before::{beside, filed};

#[test]
fn a_question_is_filed_under_a_name_any_filesystem_would_take() {
    assert_eq!(filed("sinks"), "sinks".to_string());
    assert_eq!(filed("bluetooth AA:BB:CC:DD:EE:FF"), "bluetooth-aa-bb-cc-dd-ee-ff".to_string());
    assert_eq!(filed("opens audio/x-opus+ogg"), "opens-audio-x-opus-ogg".to_string());
}

#[test]
fn a_question_with_no_name_is_still_a_file() {
    assert_eq!(filed(""), "asked".to_string());
    assert_eq!(filed("///"), "---".to_string());
}

#[test]
fn a_letter_outside_ascii_is_filed_as_a_dash() {
    assert_eq!(filed("café"), "caf-".to_string());
}

#[test]
fn what_a_question_said_is_kept_under_the_program_and_the_name_it_is_filed_as() {
    assert_eq!(
        beside(Some("/home/deck/.cache/console"), "settings-panel", "bluetooth AA:BB"),
        Some("/home/deck/.cache/console/asked/settings-panel.bluetooth-aa-bb".to_string())
    );
    assert_eq!(beside(Some("/c"), "menu", ""), Some("/c/asked/menu.asked".to_string()));
    assert_eq!(beside(None, "menu", "sinks"), None);
}
