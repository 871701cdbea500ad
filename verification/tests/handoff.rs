use console_panel::handoff::{after_hearing, heard, read, spelled, DrawnBy, Heard, Request};

fn asked(arguments: &[&str]) -> Request {
    Request {
        who: "launcher".to_string(),
        from: "bar".to_string(),
        pressed: Some("12345".to_string()),
        exec_nanos: 3_000_000,
        tells: None,
        arguments: arguments.iter().map(|word| (*word).to_string()).collect(),
    }
}

#[test]
fn handoff_what_was_asked_for_is_what_arrives() {
    let asking = asked(&["--place", "2.1.3"]);
    let said = spelled(&asking);

    assert_eq!(read(&said), Some(asking));
}

#[test]
fn where_the_asker_wants_the_panel_to_say_what_it_drew_reaches_the_host() {
    let asking = Request { tells: Some("/run/user/1000/told here.jsonl".to_string()), ..asked(&["General"]) };
    let said = spelled(&asking);

    assert_eq!(read(&said), Some(asking));
}

#[test]
fn handoff_an_argument_with_a_space_in_it_is_still_one_argument() {
    let asking = asked(&["Game Mode"]);
    let said = spelled(&asking);
    let back = read(&said);

    assert_eq!(back.map(|back| back.arguments), Some(vec!["Game Mode".to_string()]));
}

#[test]
fn handoff_a_path_holding_the_marks_that_spell_the_line_survives_it() {
    let awkward = "/home/someone/a folder\\with a mark/and a\nline";
    let asking = asked(&[awkward]);
    let said = spelled(&asking);

    assert!(!said.contains('\n'), "a request is one line or it is two requests");
    let back = read(&said);

    assert_eq!(back.map(|back| back.arguments), Some(vec![awkward.to_string()]));
}

#[test]
fn handoff_an_argument_that_says_nothing_is_still_an_argument() {
    let asking = asked(&["", "Sound"]);
    let said = spelled(&asking);
    let back = read(&said);

    assert_eq!(
        back.map(|back| back.arguments),
        Some(vec![String::new(), "Sound".to_string()]),
        "an empty word dropped would shift every argument after it"
    );
}

#[test]
fn a_panel_no_one_pressed_says_so_rather_than_saying_nought() {
    let asking = Request { pressed: None, from: String::new(), ..asked(&[]) };
    let said = spelled(&asking);

    assert_eq!(read(&said), Some(asking), "a stamp of zero is a wait that ended long ago");
}

#[test]
fn handoff_a_line_that_is_not_a_request_is_not_read_as_one() {
    assert_eq!(read(""), None);
    assert_eq!(read("shut launcher"), None);
    assert_eq!(read("open"), None);
    assert_eq!(read("open launcher"), None);
    assert_eq!(read("open launcher bar 12345"), None);
    assert_eq!(read("open - bar 12345 0"), None, "a panel with no name is no panel");
}

#[test]
fn a_request_is_spelled_as_one_line_of_words() {
    let asking = asked(&["Game Mode", ""]);

    assert_eq!(spelled(&asking), "open launcher bar 12345 3000000 - Game\\sMode -");
}

#[test]
fn a_word_that_is_only_a_dash_comes_back_as_a_dash() {
    let asking = Request { tells: Some("-".to_string()), ..asked(&["-", "", "--", "\\-"]) };
    let said = spelled(&asking);

    assert_eq!(said, "open launcher bar 12345 3000000 \\- \\- - -- \\\\-");
    assert_eq!(read(&said), Some(asking));
}

#[test]
fn a_start_that_is_not_a_number_is_read_as_nought() {
    let back = read("open launcher bar - soon -");

    assert_eq!(back.map(|back| back.exec_nanos), Some(0));
}

#[test]
fn what_the_host_says_is_heard_whatever_is_around_it() {
    assert_eq!(heard("drawn\n"), Heard::Drawn);
    assert_eq!(heard("  gone"), Heard::Gone);
    assert_eq!(heard("gone away"), Heard::Unknown);
    assert_eq!(after_hearing(DrawnBy::Here, Heard::Drawn), DrawnBy::ByTheHost);
    assert_eq!(after_hearing(DrawnBy::Here, Heard::Unknown), DrawnBy::Here);
    assert_eq!(after_hearing(DrawnBy::ByTheHost, Heard::Unknown), DrawnBy::ByTheHost);
}

#[test]
fn handoff_the_socket_is_beside_the_pools() {
    let at = console_panel::handoff::where_(Some("/run/user/1000/console")).expect("a runtime directory");

    assert!(std::path::PathBuf::from(&at).ends_with("console/panels.sock"), "{at}");
    assert_eq!(console_panel::handoff::where_(None), None);
}
