use watsup::clock;
use watsup::common::NonEmptyString;
use watsup::config::Config;
use watsup::frame::{CompletedFrame, Frame};
use watsup::watson::{FrameEdit, Store};

fn project(name: &str) -> NonEmptyString {
    NonEmptyString::new(name).unwrap()
}

#[test]
fn test_from_frame_requires_an_end() {
    let open = Frame::new(project("alpha"), None, Some(100), None, vec![], Some(100));
    assert!(CompletedFrame::from_frame(open).is_none());

    let closed = Frame::new(project("alpha"), None, Some(100), Some(250), vec![], Some(250));
    let completed = CompletedFrame::from_frame(closed).unwrap();
    assert_eq!(completed.end(), 250);
}

#[test]
fn test_set_end_completes_the_frame() {
    let mut frame = Frame::new(project("alpha"), None, Some(100), None, vec![], Some(100));
    let completed = frame.set_end(400);
    assert_eq!(completed.end(), 400);
    assert_eq!(completed.frame().start(), 100);
    assert_eq!(completed.duration(), 300);
}

#[test]
fn test_duration_is_not_clamped() {
    let frame = Frame::new(project("alpha"), None, Some(500), Some(200), vec![], Some(500));
    let completed = CompletedFrame::from_frame(frame).unwrap();
    assert_eq!(completed.duration(), -300);
}

#[test]
fn test_completed_frames_compare_by_start() {
    let a = CompletedFrame::from_frame(Frame::new(
        project("alpha"),
        None,
        Some(100),
        Some(200),
        vec![],
        None,
    ))
    .unwrap();
    let b = CompletedFrame::from_frame(Frame::new(
        project("beta"),
        None,
        Some(100),
        Some(900),
        vec![],
        None,
    ))
    .unwrap();
    // equality is intentionally coarse: by start time alone
    assert!(a == b);
}

#[test]
fn test_generated_ids_are_hexadecimal() {
    let frame = Frame::new(project("alpha"), None, Some(100), None, vec![], Some(100));
    assert!(!frame.id().is_empty());
    assert!(frame.id().chars().all(|c| c.is_ascii_hexdigit()));
}

#[test]
fn test_update_from_keeps_the_id() {
    let mut frame = Frame::new(
        project("alpha"),
        Some("keep-me".to_string()),
        Some(100),
        Some(200),
        vec![],
        Some(200),
    );
    let edit = FrameEdit::new(
        project("beta"),
        "2021-05-03 02:40:00".to_string(),
        Some("2021-05-03 03:40:00".to_string()),
        vec![project("tag")],
    );
    frame.update_from(&edit, 5000, Some(6000), 7000);
    assert_eq!(frame.id(), "keep-me");
    assert_eq!(frame.project(), &project("beta"));
    assert_eq!(frame.start(), 5000);
    assert_eq!(frame.end(), Some(6000));
    assert_eq!(frame.last_edit(), 7000);
    assert_eq!(frame.tags().len(), 1);
}

#[test]
fn test_local_datetime_format_parse_round_trip() {
    let ts: i64 = 1_620_000_000;
    let text = clock::format_local_datetime(ts).unwrap();
    assert_eq!(text.len(), 19);
    assert_eq!(clock::parse_local_datetime(&text), Some(ts));
    assert!(clock::parse_local_datetime("not a datetime").is_none());
}

#[test]
fn test_frame_edit_projection_round_trips_times() {
    let frame = Frame::new(
        project("alpha"),
        None,
        Some(1_620_000_000),
        Some(1_620_003_600),
        vec![],
        None,
    );
    let edit = FrameEdit::from_frame(&frame).unwrap();
    let (start, stop) = edit.parse_times().unwrap();
    assert_eq!(start, 1_620_000_000);
    assert_eq!(stop, Some(1_620_003_600));
}

#[test]
fn test_frame_edit_of_ongoing_has_no_stop() {
    let ongoing = watsup::state::OngoingFrame::new(project("alpha"), 1_620_000_000, vec![]);
    let edit = FrameEdit::from_ongoing(&ongoing).unwrap();
    assert!(edit.stop_text().is_none());
    let (start, stop) = edit.parse_times().unwrap();
    assert_eq!(start, 1_620_000_000);
    assert!(stop.is_none());
}

#[test]
fn test_config_paths() {
    let config = Config::new("/tmp/watsup-data".to_string());
    assert_eq!(config.get_state_path(), "/tmp/watsup-data/state");
    assert_eq!(config.get_frames_path(), "/tmp/watsup-data/frames");
    let store = Store::new(config);
    assert_eq!(store.config().get_frames_path(), "/tmp/watsup-data/frames");
}

#[test]
fn test_now_ts_is_recent() {
    let t = clock::now_ts();
    // after 2020 and before 2100
    assert!(t > 1_577_836_800);
    assert!(t < 4_102_444_800);
}

#[test]
fn test_completed_frames_order_by_start() {
    let early = CompletedFrame::from_frame(Frame::new(
        project("alpha"),
        None,
        Some(100),
        Some(900),
        vec![],
        None,
    ))
    .unwrap();
    let late = CompletedFrame::from_frame(Frame::new(
        project("beta"),
        None,
        Some(200),
        Some(300),
        vec![],
        None,
    ))
    .unwrap();
    assert!(early < late);
    assert!(late > early);
}
