//! Connections of the page.
use cce_remote::session::{
    Action, Incoming, Session, pointer_command, windows_command,
};

const PIN: &str = "123456";

fn text(s: &str) -> Incoming {
    Incoming::Text(s.to_string())
}

fn paired() -> Session {
    let mut s = Session::new();
    assert!(matches!(s.on_read(text("auth 123456"), PIN), Action::Welcome));
    s
}

#[test]
fn nothing_is_done_for_a_client_that_has_not_paired() {
    for first in [text("m 1 2"), text("auth 1"), Incoming::Other, Incoming::Failed, text("wl")] {
        let mut s = Session::new();
        assert!(matches!(s.on_read(first, PIN), Action::Refuse));
        // Pairing late does not help.
        assert!(matches!(s.on_read(text("auth 123456"), PIN), Action::Hangup));
        assert!(matches!(s.on_read(text("m 1 2"), PIN), Action::Hangup));
    }
}

#[test]
fn a_paired_client_is_served() {
    let mut s = paired();
    assert!(matches!(s.on_read(text(" wl\n"), PIN), Action::ListWindows));
    assert!(matches!(s.on_read(text("pl"), PIN), Action::LocatePointer));
    assert!(matches!(s.on_read(text("k 28"), PIN), Action::Control(c) if c == ["keypress 28"]));
    assert!(matches!(s.on_read(text("exit"), PIN), Action::Nothing));
    assert!(matches!(s.on_read(text("auth 123456"), PIN), Action::Nothing));
    assert!(matches!(s.on_read(Incoming::Other, PIN), Action::Nothing));
    assert!(matches!(s.on_read(Incoming::Failed, PIN), Action::Hangup));
    assert!(matches!(s.on_read(text("k 28"), PIN), Action::Hangup));
}

#[test]
fn replies_and_questions_are_fixed() {
    let reply = |a: Action, heard: Option<&str>| a.reply(heard);
    assert_eq!(reply(Action::Welcome, None), Some("auth ok".to_string()));
    assert_eq!(reply(Action::Refuse, None), Some("auth fail".to_string()));
    assert_eq!(reply(Action::ListWindows, None), Some("windows []".to_string()));
    assert_eq!(
        reply(Action::ListWindows, Some("{\"id\":1}\n")),
        Some("windows [{\"id\":1}]".to_string())
    );
    assert_eq!(reply(Action::LocatePointer, Some("x=1 y=2")), Some("ploc 1 2".to_string()));
    assert_eq!(reply(Action::LocatePointer, Some("none")), None);
    assert_eq!(reply(Action::LocatePointer, None), None);
    assert_eq!(reply(Action::Control(vec!["keypress 1".to_string()]), Some("ok")), None);
    assert_eq!(reply(Action::Nothing, Some("ok")), None);
    assert_eq!(reply(Action::Hangup, None), None);
    assert_eq!(windows_command(), "windows --json");
    assert_eq!(pointer_command(), "pointer-location");
}

#[test]
fn each_action_has_its_commands() {
    let cmds = vec!["pointer-move-to 1.0 2.0".to_string(), "pointer-click left".to_string()];
    assert_eq!(Action::Control(cmds.clone()).commands(), cmds);
    assert_eq!(Action::ListWindows.commands(), ["windows --json"]);
    assert_eq!(Action::LocatePointer.commands(), ["pointer-location"]);
    for quiet in [Action::Welcome, Action::Refuse, Action::Nothing, Action::Hangup] {
        assert!(quiet.commands().is_empty());
    }
}
