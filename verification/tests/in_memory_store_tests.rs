use watsup::common::NonEmptyString;
use watsup::frame::{CompletedFrame, Frame, FrameStore};
use watsup::in_memory_store::InMemoryStore;
use watsup::state::{OngoingFrame, StateStoreBackend};

fn ts(year: i32, month: u32, day: u32, hour: u32, min: u32, sec: u32) -> i64 {
    chrono::NaiveDate::from_ymd_opt(year, month, day)
        .unwrap()
        .and_hms_opt(hour, min, sec)
        .unwrap()
        .and_utc()
        .timestamp()
}

fn create_test_project() -> NonEmptyString {
    NonEmptyString::new("test_project").unwrap()
}

fn create_test_frame(project: NonEmptyString, start_hour: u32, end_hour: u32) -> CompletedFrame {
    let start = ts(2025, 1, 1, start_hour, 0, 0);
    let end = ts(2025, 1, 1, end_hour, 0, 0);
    let frame = Frame::new(project, None, Some(start), Some(end), vec![], None);
    CompletedFrame::from_frame(frame).unwrap()
}

fn create_test_ongoing_frame(project: NonEmptyString) -> OngoingFrame {
    let start = ts(2024, 1, 1, 10, 0, 0);
    OngoingFrame::new(project, start, vec![])
}

#[test]
fn test_new_store_is_empty() {
    let store = InMemoryStore::new();
    assert!(store.get_last_frame().is_none());
    assert!(store.get().unwrap().is_none());
}

#[test]
fn test_save_and_retrieve_frame() {
    let mut store = InMemoryStore::new();
    let project = create_test_project();
    let frame = create_test_frame(project, 9, 10);
    let frame_id = frame.frame().id().to_string();

    store.save_frame(&frame).unwrap();

    let retrieved = store.get_frame(&frame_id).unwrap();
    assert!(retrieved.is_some());
    assert_eq!(retrieved.unwrap().frame().id(), frame_id);
}

#[test]
fn in_memory_store_test_get_last_frame() {
    let mut store = InMemoryStore::new();
    let project = create_test_project();

    let frame1 = create_test_frame(project.clone(), 9, 10);
    let frame2 = create_test_frame(project.clone(), 11, 12);
    let frame3 = create_test_frame(project, 10, 11);

    store.save_frame(&frame1).unwrap();
    store.save_frame(&frame2).unwrap();
    store.save_frame(&frame3).unwrap();

    let last = store.get_last_frame().unwrap();
    assert_eq!(last.frame().id(), frame2.frame().id());
}

#[test]
fn test_get_projects() {
    let mut store = InMemoryStore::new();
    let project1 = NonEmptyString::new("project_a").unwrap();
    let project2 = NonEmptyString::new("project_b").unwrap();

    let frame1 = create_test_frame(project1.clone(), 9, 10);
    let frame2 = create_test_frame(project2.clone(), 10, 11);
    let frame3 = create_test_frame(project1.clone(), 11, 12);

    store.save_frame(&frame1).unwrap();
    store.save_frame(&frame2).unwrap();
    store.save_frame(&frame3).unwrap();

    let projects = store.get_projects().unwrap();
    assert_eq!(projects.len(), 2);
    assert!(projects.contains(&project1));
    assert!(projects.contains(&project2));
}

#[test]
fn test_get_frames_in_range() {
    let mut store = InMemoryStore::new();
    let project = create_test_project();

    let frame1 = create_test_frame(project.clone(), 8, 9); // Outside range
    let frame2 = create_test_frame(project.clone(), 9, 10); // In range
    let frame3 = create_test_frame(project.clone(), 10, 11); // In range
    let frame4 = create_test_frame(project, 12, 13); // Outside range

    store.save_frame(&frame1).unwrap();
    store.save_frame(&frame2).unwrap();
    store.save_frame(&frame3).unwrap();
    store.save_frame(&frame4).unwrap();

    let start = ts(2025, 1, 1, 9, 0, 0);
    let end = ts(2025, 1, 1, 11, 30, 0);

    let frames = store.get_frames(start, end).unwrap();
    assert_eq!(frames.len(), 2);
}

#[test]
fn test_store_and_get_ongoing_frame() {
    let mut store = InMemoryStore::new();
    let project = create_test_project();
    let ongoing = create_test_ongoing_frame(project.clone());

    store.store(&ongoing).unwrap();

    let retrieved = store.get().unwrap();
    assert!(retrieved.is_some());
    let retrieved = retrieved.unwrap();
    assert_eq!(retrieved.project(), &project);
}

#[test]
fn in_memory_store_test_clear_ongoing_frame() {
    let mut store = InMemoryStore::new();
    let project = create_test_project();
    let ongoing = create_test_ongoing_frame(project);

    store.store(&ongoing).unwrap();
    assert!(store.get().unwrap().is_some());

    let had_frame = store.clear().unwrap();
    assert!(had_frame);
    assert!(store.get().unwrap().is_none());
}

#[test]
fn test_clear_when_no_ongoing_frame() {
    let mut store = InMemoryStore::new();
    let had_frame = store.clear().unwrap();
    assert!(!had_frame);
}

#[test]
fn test_update_existing_frame() {
    let mut store = InMemoryStore::new();
    let project = create_test_project();
    let frame = create_test_frame(project.clone(), 9, 10);
    let frame_id = frame.frame().id().to_string();

    store.save_frame(&frame).unwrap();

    // Create a new frame with the same ID but different times
    let start = ts(2024, 1, 1, 10, 0, 0);
    let end = ts(2024, 1, 1, 12, 0, 0);
    let updated_frame = Frame::new(
        project,
        Some(frame_id.clone()),
        Some(start),
        Some(end),
        vec![],
        None,
    );
    let updated_frame = CompletedFrame::from_frame(updated_frame).unwrap();

    store.save_frame(&updated_frame).unwrap();

    let retrieved = store.get_frame(&frame_id).unwrap().unwrap();
    assert_eq!(retrieved.end(), ts(2024, 1, 1, 12, 0, 0));
}

#[test]
fn test_get_projects_is_sorted() {
    let mut store = InMemoryStore::new();
    for name in ["gamma", "alpha", "beta"] {
        let frame = create_test_frame(NonEmptyString::new(name).unwrap(), 9, 10);
        store.save_frame(&frame).unwrap();
    }
    let projects = store.get_projects().unwrap();
    let names: Vec<String> = projects.iter().map(|p| p.to_string()).collect();
    assert_eq!(names, vec!["alpha", "beta", "gamma"]);
}
