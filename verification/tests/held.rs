use console_panel::handoff::Heard;
use console_panel::held::{after_hearing, read, spelt, where_, Asked, Drawn};

fn asked(argv: &[&str]) -> Asked {
    Asked {
        who: "launcher".to_string(),
        from: "bar".to_string(),
        pressed: Some("12345".to_string()),
        exec_nanos: 3_000_000,
        argv: argv.iter().map(|word| (*word).to_string()).collect(),
    }
}

#[test]
fn held_what_was_asked_for_is_what_arrives() {
    let asking = asked(&["--place", "2.1.3"]);
    let said = spelt(&asking);

    assert_eq!(read(&said), Some(asking));
}

#[test]
fn held_an_argument_with_a_space_in_it_is_still_one_argument() {
    let asking = asked(&["Game Mode"]);
    let back = read(&spelt(&asking));

    assert_eq!(back.map(|back| back.argv), Some(vec!["Game Mode".to_string()]));
}

#[test]
fn held_a_path_holding_the_marks_that_spell_the_line_survives_it() {
    let awkward = "/home/someone/a folder\\with a mark/and a\nline";
    let asking = asked(&[awkward]);
    let said = spelt(&asking);

    assert!(!said.contains('\n'), "a request is one line or it is two requests");
    assert_eq!(read(&said).map(|back| back.argv), Some(vec![awkward.to_string()]));
}

#[test]
fn held_an_argument_that_says_nothing_is_still_an_argument() {
    let asking = asked(&["", "Sound"]);
    let back = read(&spelt(&asking));

    assert_eq!(
        back.map(|back| back.argv),
        Some(vec![String::new(), "Sound".to_string()]),
        "an empty word dropped would shift every argument after it"
    );
}

#[test]
fn a_panel_nobody_pressed_says_so_rather_than_saying_nought() {
    let asking = Asked { pressed: None, from: String::new(), ..asked(&[]) };
    let said = spelt(&asking);

    assert_eq!(read(&said), Some(asking), "a stamp of nought is a wait that ended long ago");
}

#[test]
fn held_a_line_that_is_not_a_request_is_not_read_as_one() {
    assert_eq!(read(""), None);
    assert_eq!(read("shut launcher"), None);
    assert_eq!(read("open"), None);
    assert_eq!(read("open launcher"), None);
    assert_eq!(read("open launcher bar 12345"), None);
    assert_eq!(read("open - bar 12345 0"), None, "a panel with no name is no panel");
}

#[test]
fn held_the_socket_is_beside_the_pools() {
    let at = where_(Some("/run/user/1000")).expect("a runtime directory");

    assert!(std::path::PathBuf::from(&at).ends_with("console/panels.sock"), "{at}");
    assert_eq!(where_(Some("")), None);
    assert_eq!(where_(None), None);
}

#[test]
fn the_host_drew_it_once_it_says_so_or_says_it_has_gone() {
    assert_eq!(after_hearing(Drawn::Here, Heard::Drawn), Drawn::ByTheHost);
    assert_eq!(after_hearing(Drawn::Here, Heard::Unknown), Drawn::Here);
    assert_eq!(after_hearing(Drawn::ByTheHost, Heard::Gone), Drawn::ByTheHost);
}

#[test]
fn held_a_word_that_is_only_a_dash_comes_back_as_a_dash() {
    let asking = asked(&["-", "", "x"]);

    assert_eq!(console_panel::held::read(&console_panel::held::spelt(&asking)), Some(asking));
}
