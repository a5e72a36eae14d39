use watsup::common::NonEmptyString;
use watsup::in_memory_store::InMemoryStore;
use watsup::state::{get_state_store, StateStoreBackend, StateStoreVariant};

fn project(name: &str) -> NonEmptyString {
    NonEmptyString::new(name).unwrap()
}

#[test]
fn test_fresh_backend_is_stopped() {
    let backend = InMemoryStore::new();
    match get_state_store(backend).unwrap() {
        StateStoreVariant::Stopped(_) => {}
        StateStoreVariant::Ongoing(_) => panic!("a fresh backend must read as stopped"),
    }
}

#[test]
fn test_start_transitions_to_ongoing() {
    let backend = InMemoryStore::new();
    let stopped = match get_state_store(backend).unwrap() {
        StateStoreVariant::Stopped(s) => s,
        StateStoreVariant::Ongoing(_) => panic!("a fresh backend must read as stopped"),
    };
    let started = stopped.start(project("alpha"), 1000, vec![project("tag")]).unwrap();
    assert_eq!(started.frame.project(), &project("alpha"));
    assert_eq!(started.frame.start(), 1000);

    // asking again for the store now yields the ongoing variant
    let backend = started.store.into_backend();
    match get_state_store(backend).unwrap() {
        StateStoreVariant::Ongoing(_) => {}
        StateStoreVariant::Stopped(_) => panic!("after start the store must be ongoing"),
    }
}

#[test]
fn test_stop_produces_completed_frame_and_returns_to_stopped() {
    let backend = InMemoryStore::new();
    let stopped = match get_state_store(backend).unwrap() {
        StateStoreVariant::Stopped(s) => s,
        StateStoreVariant::Ongoing(_) => panic!("a fresh backend must read as stopped"),
    };
    let started = stopped.start(project("alpha"), 1000, vec![]).unwrap();
    let stopped = started.store.stop(4000).unwrap();
    assert_eq!(stopped.frame.frame().project(), &project("alpha"));
    assert_eq!(stopped.frame.frame().start(), 1000);
    assert_eq!(stopped.frame.end(), 4000);
    assert_eq!(stopped.frame.duration(), 3000);

    let backend = stopped.store.into_backend();
    match get_state_store(backend).unwrap() {
        StateStoreVariant::Stopped(_) => {}
        StateStoreVariant::Ongoing(_) => panic!("after stop the store must be stopped"),
    }
}

#[test]
fn test_cancel_discards_the_frame() {
    let backend = InMemoryStore::new();
    let stopped = match get_state_store(backend).unwrap() {
        StateStoreVariant::Stopped(s) => s,
        StateStoreVariant::Ongoing(_) => panic!("a fresh backend must read as stopped"),
    };
    let started = stopped.start(project("alpha"), 1000, vec![]).unwrap();
    let backend = started.store.cancel().unwrap();
    assert!(backend.get().unwrap().is_none());
    match get_state_store(backend).unwrap() {
        StateStoreVariant::Stopped(_) => {}
        StateStoreVariant::Ongoing(_) => panic!("after cancel the store must be stopped"),
    }
}

#[test]
fn test_update_ongoing_keeps_the_state_ongoing() {
    let backend = InMemoryStore::new();
    let stopped = match get_state_store(backend).unwrap() {
        StateStoreVariant::Stopped(s) => s,
        StateStoreVariant::Ongoing(_) => panic!("a fresh backend must read as stopped"),
    };
    let started = stopped.start(project("alpha"), 1000, vec![]).unwrap();
    let mut store = started.store;
    let revised = watsup::state::OngoingFrame::new(project("beta"), 1200, vec![]);
    store.update_ongoing(revised).unwrap();
    let current = store.get_ongoing().unwrap();
    assert_eq!(current.project(), &project("beta"));
    assert_eq!(current.start(), 1200);
}

#[test]
fn test_ongoing_frame_into_frame_keeps_fields_open() {
    let ongoing =
        watsup::state::OngoingFrame::new(project("alpha"), 777, vec![project("tag")]);
    let frame = ongoing.into_frame();
    assert_eq!(frame.project(), &project("alpha"));
    assert_eq!(frame.start(), 777);
    assert!(frame.end().is_none());
    assert_eq!(frame.tags().len(), 1);
    assert!(!frame.id().is_empty());
}
