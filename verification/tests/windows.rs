//! What the compositor says of its windows.
use cce_remote::arith::to_bits;
use cce_remote::windows::{
    Rect, ShotRead, focused_rect, focused_window, geometry_text, json_num, pointer_reply, rect_of,
    screenshot_command, screenshot_path, screenshot_read, window_list_json,
};

const REPLY: &str = "{\"id\":3,\"app_id\":\"bar\",\"mode\":\"Status\",\"focused\":true,\"x\":0,\"y\":0,\"w\":9,\"h\":9}\n\
     {\"id\":4,\"app_id\":\"foot\",\"focused\":false,\"x\":1,\"y\":2,\"w\":3,\"h\":4}\n\
     {\"id\":12,\"app_id\":\"files\",\"focused\":true,\"x\":-10.75,\"y\":20.5,\"w\":640.9,\"h\":480}\n";

fn number(line: &str, key: &str) -> Option<f64> {
    json_num(line, key).map(|v| f64::from_bits(to_bits(v)))
}

#[test]
fn window_objects_become_one_array() {
    assert_eq!(window_list_json(""), "windows []");
    assert_eq!(window_list_json("ok\n{\"id\":1}\n"), "windows [{\"id\":1}]");
    assert_eq!(
        window_list_json("{\"id\":1}\r\nnote\n  {\"id\":2}\n[3]\n{4"),
        "windows [{\"id\":1},  {\"id\":2},{4]"
    );
}

#[test]
fn numbers_are_pulled_out_of_a_line() {
    let line = "{\"id\":12,\"x\":-10.75,\"y\":20,\"w\":1e3,\"h\":,\"z\":1-2,\"last\":7";
    assert_eq!(number(line, "id"), Some(12.0));
    assert_eq!(number(line, "x"), Some(-10.75));
    assert_eq!(number(line, "y"), Some(20.0));
    // A number ends at the first character that is no digit, point or minus.
    assert_eq!(number(line, "w"), Some(1.0));
    assert_eq!(number(line, "h"), None);
    assert_eq!(number(line, "z"), None);
    assert_eq!(number(line, "last"), Some(7.0));
    assert_eq!(number(line, "none"), None);
    // The first of two counts, and white space is no part of a number.
    assert_eq!(number("\"a\":1,\"a\":2", "a"), Some(1.0));
    assert_eq!(number("\"a\": 1", "a"), None);
}

#[test]
fn the_focused_window_is_found() {
    let w = focused_window(REPLY).unwrap();
    assert_eq!(w.id, 12);
    assert_eq!(f64::from_bits(to_bits(w.x)), -10.75);
    assert_eq!(f64::from_bits(to_bits(w.h)), 480.0);
    assert_eq!(rect_of(&w), Rect { x: -10, y: 20, w: 640, h: 480 });
    assert_eq!(focused_rect(Some(REPLY)), Some(Rect { x: -10, y: 20, w: 640, h: 480 }));
    assert_eq!(focused_rect(None), None);
    assert!(focused_window("").is_none());
    // A status window does not count, nor does one whose numbers are missing.
    assert!(focused_window(REPLY.lines().next().unwrap()).is_none());
    assert!(focused_window("{\"id\":1,\"focused\":true,\"x\":1,\"y\":2,\"w\":3}").is_none());
    // The first focused line decides.
    assert!(focused_window(&format!("{{\"focused\":true}}\n{REPLY}")).is_none());
}

#[test]
fn a_rectangle_is_written_for_the_capture_program() {
    assert_eq!(geometry_text(Rect { x: -10, y: 20, w: 640, h: 480 }), "-10,20 640x480");
    assert_eq!(
        geometry_text(Rect { x: i32::MIN, y: i32::MAX, w: 0, h: -1 }),
        "-2147483648,2147483647 0x-1"
    );
}

#[test]
fn the_pointer_is_reported() {
    assert_eq!(pointer_reply("x=12.5 y=-3\n"), Some("ploc 12.5 -3".to_string()));
    assert_eq!(pointer_reply("ok y=1 z=4 x=2"), Some("ploc 1 2".to_string()));
    assert_eq!(pointer_reply("nothing here"), None);
    assert_eq!(pointer_reply(""), None);
    assert_eq!(pointer_reply("x="), None);
    assert_eq!(pointer_reply("x= y="), Some("ploc  ".to_string()));
}

#[test]
fn a_screenshot_is_asked_for_and_found() {
    assert_eq!(screenshot_command(12), "screenshot window 12");
    assert_eq!(screenshot_path("ok /tmp/a b.png\n"), Some("/tmp/a b.png".to_string()));
    assert_eq!(screenshot_path("  ok   /x  "), Some("/x".to_string()));
    assert_eq!(screenshot_path("error no window"), None);
    assert_eq!(screenshot_path("ok"), None);
}

#[test]
fn a_screenshot_is_read_five_times() {
    assert!(matches!(screenshot_read(0, Some(vec![1])), ShotRead::Done(b) if b == [1]));
    assert!(matches!(screenshot_read(0, None), ShotRead::Again(1)));
    assert!(matches!(screenshot_read(3, Some(Vec::new())), ShotRead::Again(4)));
    assert!(matches!(screenshot_read(4, None), ShotRead::Missing));
    assert!(matches!(screenshot_read(4, Some(vec![2])), ShotRead::Done(_)));
}
