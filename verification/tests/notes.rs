use std::path::PathBuf;

use console_panel::notes::{under, Note};

#[test]
fn a_note_is_named_for_the_panel_and_for_itself() {
    assert_eq!(
        under(Some("/tmp/state"), Note { program: "settings-panel", called: "tab" }).map(PathBuf::from),
        Some(PathBuf::from("/tmp/state/console/panel/settings-panel.tab"))
    );
}

#[test]
fn nothing_named_is_nothing_remembered() {
    assert_eq!(under(None, Note { program: "settings-panel", called: "tab" }), None);
}
