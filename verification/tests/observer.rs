use lantana::builder::thread_observer::{ObserverTable, ThreadObserver, ThreadObserverBuilder, ThreadState};
use lantana::builder::{BuilderError, BuilderErrorKind};
use lantana::const_values::LONG_WAIT_THREAD_SECS;
use lantana::common::{begin_closing_session, ClosingStart};
use lantana::path::FsPath;

fn dll(name: &str) -> FsPath {
    FsPath::from_components(true, vec!["opt".to_string(), "plugins".to_string(), name.to_string()])
}

#[test]
fn builder_builds_with_all_parameters() {
    let o = ThreadObserver::new()
        .tid(7)
        .dll(dll("a.so"))
        .noresponse_threshold(30)
        .method("iris_entry")
        .build()
        .unwrap();
    assert_eq!(o.get_tid(), 7);
    assert!(o.get_dll().same_as(&dll("a.so")));
    assert_eq!(o.get_method(), "iris_entry");
    assert_eq!(o.get_state(), ThreadState::ALIVE);
    assert_eq!(o.get_count(), 0);
    assert_eq!(o.get_threshold(), 30);
}

#[test]
fn builder_keeps_default_threshold() {
    let o = ThreadObserverBuilder::new().method("m").dll(dll("b.so")).tid(1).build().unwrap();
    assert_eq!(o.get_threshold(), LONG_WAIT_THREAD_SECS);
    assert_eq!(o.get_threshold(), 30);
}

#[test]
fn builder_refuses_missing_parameters() {
    let e = ThreadObserver::new().dll(dll("a.so")).method("m").build().unwrap_err();
    assert_eq!(e.kind(), BuilderErrorKind::InvalidParameter);
    let e = ThreadObserver::new().tid(1).method("m").build().unwrap_err();
    assert_eq!(e.kind(), BuilderErrorKind::InvalidParameter);
    let e = ThreadObserver::new().tid(1).dll(dll("a.so")).build().unwrap_err();
    assert_eq!(e.kind(), BuilderErrorKind::InvalidParameter);
    let e = ThreadObserver::new().tid(1).dll(dll("a.so")).method("").build().unwrap_err();
    assert_eq!(e.kind(), BuilderErrorKind::InvalidParameter);
}

#[test]
fn builder_error_texts() {
    let none = BuilderError::new();
    assert_eq!(none.kind(), BuilderErrorKind::NoError);
    assert_eq!(none.message(), "No error");
    assert_eq!(none.description(), "No error");
    let bad = BuilderError::invalid_parameter();
    assert_eq!(
        bad.message(),
        "It may not satisfy the parameter requirement required for constructing the structure."
    );
    assert_eq!(bad.description(), "Invalid parameter");
}

#[test]
fn activate_then_deactivate() {
    let mut table = ObserverTable::new();
    assert!(table.activate("iris_entry", 3, dll("a.so")).is_ok());
    assert!(table.is_watching(3));
    let o = table.get(3).unwrap();
    assert_eq!(o.get_threshold(), 30);
    assert_eq!(o.get_method(), "iris_entry");
    assert!(table.activate("core_ending_session", 4, dll("b.so")).is_ok());
    table.deactivate(3);
    assert!(!table.is_watching(3));
    assert!(table.is_watching(4));
    table.deactivate(3);
    assert!(table.is_watching(4));
}

#[test]
fn activate_with_empty_method_changes_nothing() {
    let mut table = ObserverTable::new();
    let e = table.activate("", 3, dll("a.so")).unwrap_err();
    assert_eq!(e.kind(), BuilderErrorKind::InvalidParameter);
    assert!(!table.is_watching(3));
}

#[test]
fn activate_replaces_the_call_on_the_same_thread() {
    let mut table = ObserverTable::new();
    table.activate("first", 5, dll("a.so")).unwrap();
    table.tick();
    table.activate("second", 5, dll("b.so")).unwrap();
    let o = table.get(5).unwrap();
    assert_eq!(o.get_method(), "second");
    assert!(o.get_dll().same_as(&dll("b.so")));
    assert_eq!(o.get_count(), 0);
}

#[test]
fn tick_reports_every_thirty_seconds() {
    let mut table = ObserverTable::new();
    table.activate("slow", 9, dll("slow.so")).unwrap();
    let mut reported_at = Vec::new();
    for second in 1..=95u32 {
        let reports = table.tick();
        if !reports.is_empty() {
            assert_eq!(reports.len(), 1);
            assert_eq!(reports[0].tid, 9);
            assert_eq!(reports[0].method, "slow");
            assert!(reports[0].dll.same_as(&dll("slow.so")));
            reported_at.push(second);
        }
    }
    assert_eq!(reported_at, vec![30, 60, 90]);
    assert_eq!(table.get(9).unwrap().get_count(), 5);
}

#[test]
fn tick_reports_each_due_thread_once() {
    let mut table = ObserverTable::new();
    table.activate("a", 1, dll("a.so")).unwrap();
    table.activate("b", 2, dll("b.so")).unwrap();
    for _ in 0..29 {
        assert!(table.tick().is_empty());
    }
    let reports = table.tick();
    let mut tids: Vec<u64> = reports.iter().map(|r| r.tid).collect();
    tids.sort();
    assert_eq!(tids, vec![1, 2]);
    assert_eq!(table.get(1).unwrap().get_count(), 0);
}

#[test]
fn closing_session_without_library_runs_nothing() {
    let mut table = ObserverTable::new();
    assert!(matches!(begin_closing_session(&mut table, 4, None), ClosingStart::NoLibrary));
    assert!(!table.is_watching(4));
}
