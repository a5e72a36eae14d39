use watsup::cli::{CliError, CommandExecutor, EditTarget};
use watsup::common::NonEmptyString;
use watsup::frame::{CompletedFrame, Frame, FrameStore};
use watsup::in_memory_store::{InMemoryStore, InMemoryStoreError};

type Executor = CommandExecutor<InMemoryStoreError, InMemoryStore, InMemoryStore>;

fn executor() -> Executor {
    CommandExecutor::new(InMemoryStore::new(), InMemoryStore::new())
}

fn project(name: &str) -> NonEmptyString {
    NonEmptyString::new(name).unwrap()
}

const T0: i64 = 1_700_000_000;

#[test]
fn test_start_stop_scenario_records_ninety_minutes() {
    // start "writing-report" with no tags at T0; stop at T0 + 90 min
    let mut ex = executor();
    let started = ex.start("writing-report", &vec![], false, T0).unwrap();
    assert_eq!(started.project(), &project("writing-report"));
    assert_eq!(started.start(), T0);

    let stop_at = T0 + 90 * 60;
    let completed = ex.stop(stop_at, stop_at).unwrap();
    assert_eq!(completed.frame().project(), &project("writing-report"));

    let last = ex.frame_store().get_last_frame().unwrap();
    assert_eq!(last.duration(), 90 * 60);
    assert_eq!(last.frame().project(), &project("writing-report"));

    let projects = ex.list_projects().unwrap();
    assert_eq!(projects.len(), 1);
    assert_eq!(projects[0], project("writing-report"));
}

#[test]
fn test_second_start_reports_the_running_project() {
    let mut ex = executor();
    ex.start("alpha", &vec![], false, T0).unwrap();
    match ex.start("beta", &vec![], false, T0 + 10) {
        Err(CliError::OngoingProject(p)) => assert_eq!(p, project("alpha")),
        _ => panic!("a second start must report the already-running project"),
    }
    // the frame that was already running is untouched
    assert_eq!(ex.status().unwrap().project(), &project("alpha"));
}

#[test]
fn test_stop_with_future_timestamp_is_rejected() {
    let mut ex = executor();
    ex.start("alpha", &vec![], false, T0).unwrap();
    match ex.stop(T0 + 100, T0 + 50) {
        Err(CliError::FutureTimestamp) => {}
        _ => panic!("a stop in the future must be rejected"),
    }
    // the state remains ongoing and nothing was persisted
    assert_eq!(ex.status().unwrap().project(), &project("alpha"));
    assert!(ex.frame_store().get_last_frame().is_none());
}

#[test]
fn test_stop_while_stopped_is_an_error() {
    let mut ex = executor();
    match ex.stop(T0, T0) {
        Err(CliError::NoOngoingRecording) => {}
        _ => panic!("stop without an ongoing frame must fail"),
    }
}

#[test]
fn test_cancel_discards_without_saving() {
    let mut ex = executor();
    ex.start("alpha", &vec![], false, T0).unwrap();
    let cancelled = ex.cancel().unwrap();
    assert_eq!(cancelled, project("alpha"));
    assert!(ex.status().is_err());
    assert!(ex.frame_store().get_last_frame().is_none());
}

#[test]
fn test_cancel_while_stopped_is_an_error() {
    let mut ex = executor();
    match ex.cancel() {
        Err(CliError::NoOngoingRecording) => {}
        _ => panic!("cancel without an ongoing frame must fail"),
    }
}

#[test]
fn test_start_with_empty_project_name_is_rejected() {
    let mut ex = executor();
    match ex.start("", &vec![], false, T0) {
        Err(CliError::InvalidProjectName) => {}
        _ => panic!("an empty project name must be rejected"),
    }
}

#[test]
fn test_start_drops_empty_tags() {
    let mut ex = executor();
    let tags = vec!["one".to_string(), "".to_string(), "two".to_string()];
    let started = ex.start("alpha", &tags, false, T0).unwrap();
    assert_eq!(started.tags().len(), 2);
    assert_eq!(started.tags()[0].to_string(), "one");
    assert_eq!(started.tags()[1].to_string(), "two");
}

#[test]
fn test_start_no_gap_begins_at_the_last_end() {
    let mut ex = executor();
    ex.start("alpha", &vec![], false, T0).unwrap();
    ex.stop(T0 + 600, T0 + 600).unwrap();
    let started = ex.start("beta", &vec![], true, T0 + 900).unwrap();
    assert_eq!(started.start(), T0 + 600);
}

#[test]
fn test_show_log_filters_by_overlap() {
    // frames A=[09:00,10:00), B=[10:00,11:00), C=[12:00,13:00);
    // querying [09:30, 10:30) returns {A, B} and excludes C
    let hour = |h: i64| T0 + h * 3600;
    let mut ex = executor();
    for (name, s, e) in [("a", 9, 10), ("b", 10, 11), ("c", 12, 13)] {
        ex.start(name, &vec![], false, hour(s)).unwrap();
        ex.stop(hour(e), hour(e)).unwrap();
    }
    let half = 1800;
    let frames = ex.show_log(hour(9) + half, hour(10) + half, false, hour(14)).unwrap();
    assert_eq!(frames.len(), 2);
    assert_eq!(frames[0].frame().project(), &project("a"));
    assert_eq!(frames[1].frame().project(), &project("b"));
}

#[test]
fn test_show_log_appends_the_current_frame() {
    let mut ex = executor();
    ex.start("alpha", &vec![], false, T0).unwrap();
    let frames = ex.show_log(T0 - 100, T0 + 100, true, T0 + 60).unwrap();
    assert_eq!(frames.len(), 1);
    assert_eq!(frames[0].frame().project(), &project("alpha"));
    assert_eq!(frames[0].end(), T0 + 60);
}

#[test]
fn test_status_reports_the_ongoing_frame() {
    let mut ex = executor();
    assert!(matches!(ex.status(), Err(CliError::NoOngoingRecording)));
    ex.start("alpha", &vec![], false, T0).unwrap();
    assert_eq!(ex.status().unwrap().project(), &project("alpha"));
}

#[test]
fn test_edit_unknown_frame_is_an_error() {
    let mut ex = executor();
    let edit = watsup::watson::FrameEdit::new(
        project("alpha"),
        "2021-05-03 02:40:00".to_string(),
        Some("2021-05-03 03:40:00".to_string()),
        vec![],
    );
    match ex.apply_edit("no-such-id", &edit, T0) {
        Err(CliError::InvalidFrame(Some(id))) => assert_eq!(id, "no-such-id"),
        _ => panic!("editing an unknown frame must fail with its id"),
    }
}

#[test]
fn test_apply_edit_rewrites_the_frame_in_place() {
    let mut ex = executor();
    ex.start("alpha", &vec![], false, T0).unwrap();
    ex.stop(T0 + 600, T0 + 600).unwrap();
    let id = ex.frame_store().get_last_frame().unwrap().frame().id().to_string();

    let edit = watsup::watson::FrameEdit::new(
        project("renamed"),
        "2021-05-03 02:40:00".to_string(),
        Some("2021-05-03 03:40:00".to_string()),
        vec![project("tagged")],
    );
    ex.apply_edit(&id, &edit, T0 + 900).unwrap();

    let frame = ex.frame_store().get_frame(&id).unwrap().unwrap();
    assert_eq!(frame.frame().project(), &project("renamed"));
    assert_eq!(frame.frame().id(), id);
    assert_eq!(frame.frame().last_edit(), T0 + 900);
    assert_eq!(frame.frame().tags().len(), 1);
    assert_eq!(frame.duration(), 3600);
}

#[test]
fn test_apply_edit_without_stop_on_completed_frame_fails() {
    let mut ex = executor();
    ex.start("alpha", &vec![], false, T0).unwrap();
    ex.stop(T0 + 600, T0 + 600).unwrap();
    let id = ex.frame_store().get_last_frame().unwrap().frame().id().to_string();

    let edit = watsup::watson::FrameEdit::new(
        project("alpha"),
        "2021-05-03 02:40:00".to_string(),
        None,
        vec![],
    );
    assert!(ex.apply_edit(&id, &edit, T0 + 900).is_err());
}

#[test]
fn test_apply_edit_ongoing_rewrites_the_slot() {
    let mut ex = executor();
    ex.start("alpha", &vec![], false, T0).unwrap();
    let edit = watsup::watson::FrameEdit::new(
        project("renamed"),
        "2021-05-03 02:40:00".to_string(),
        None,
        vec![],
    );
    ex.apply_edit_ongoing(&edit).unwrap();
    assert_eq!(ex.status().unwrap().project(), &project("renamed"));
}

#[test]
fn test_resolve_edit_target_prefers_id_then_ongoing_then_last() {
    let mut ex = executor();
    assert!(matches!(
        ex.resolve_edit_target(None),
        Err(CliError::InvalidFrame(None))
    ));

    ex.start("alpha", &vec![], false, T0).unwrap();
    ex.stop(T0 + 600, T0 + 600).unwrap();
    let id = ex.frame_store().get_last_frame().unwrap().frame().id().to_string();
    match ex.resolve_edit_target(None) {
        Ok(EditTarget::Completed(f)) => assert_eq!(f.frame().id(), id),
        _ => panic!("with no id and nothing ongoing, the last frame is edited"),
    }

    ex.start("beta", &vec![], false, T0 + 700).unwrap();
    match ex.resolve_edit_target(None) {
        Ok(EditTarget::Ongoing(o)) => assert_eq!(o.project(), &project("beta")),
        _ => panic!("with no id, the ongoing frame is edited"),
    }
    match ex.resolve_edit_target(Some(&id)) {
        Ok(EditTarget::Completed(f)) => assert_eq!(f.frame().id(), id),
        _ => panic!("an explicit id wins"),
    }
}

#[test]
fn test_save_frame_updates_by_id() {
    let mut store = InMemoryStore::new();
    let frame = Frame::new(
        project("alpha"),
        Some("id1".to_string()),
        Some(T0),
        Some(T0 + 60),
        vec![],
        Some(T0 + 60),
    );
    store.save_frame(&CompletedFrame::from_frame(frame).unwrap()).unwrap();
    let replacement = Frame::new(
        project("beta"),
        Some("id1".to_string()),
        Some(T0),
        Some(T0 + 120),
        vec![],
        Some(T0 + 120),
    );
    store.save_frame(&CompletedFrame::from_frame(replacement).unwrap()).unwrap();
    let frames = store.get_frames(i64::MIN, i64::MAX).unwrap();
    assert_eq!(frames.len(), 1);
    assert_eq!(frames[0].frame().project(), &project("beta"));
}

#[test]
fn test_apply_edit_with_malformed_times_fails() {
    let mut ex = executor();
    ex.start("alpha", &vec![], false, T0).unwrap();
    ex.stop(T0 + 600, T0 + 600).unwrap();
    let id = ex.frame_store().get_last_frame().unwrap().frame().id().to_string();

    let edit = watsup::watson::FrameEdit::new(
        project("alpha"),
        "not a datetime".to_string(),
        Some("2021-05-03 03:40:00".to_string()),
        vec![],
    );
    match ex.apply_edit(&id, &edit, T0 + 900) {
        Err(CliError::SerializationError(_)) => {}
        _ => panic!("an edit whose times do not parse must be rejected"),
    }
}
