use mportal::daemon::{is_watched_change, ChangeKind, RenameSide};
use mportal::control::{log_wait_step, LogWait};
use mportal::daemon::{
    watch_decision, FileEventResponse, WatchDecision, WatchState, RECENT_NANOS,
    RELOAD_DEBOUNCE_NANOS,
};

const CONFIG: &str = "/home/u/.config/MPortal/config.toml";
const SEC: u64 = 1_000_000_000;

fn paths(ps: &[&str]) -> Vec<String> {
    ps.iter().map(|p| p.to_string()).collect()
}

fn dispatched(r: FileEventResponse) -> Vec<String> {
    match r {
        FileEventResponse::Dispatch(d) => d,
        _ => panic!("expected a dispatch"),
    }
}

#[test]
fn new_files_are_handed_over_once() {
    let mut s = WatchState::new();
    let d = dispatched(s.on_file_event(&paths(&["/in/a.mp4", "/in/b.mp4", "/in/a.mp4"]), CONFIG, 100));
    assert_eq!(d, paths(&["/in/a.mp4", "/in/b.mp4"]));
    assert_eq!(s.processing, paths(&["/in/a.mp4", "/in/b.mp4"]));
    assert_eq!(s.processed, vec![("/in/a.mp4".to_string(), 100), ("/in/b.mp4".to_string(), 100)]);
}

#[test]
fn busy_file_is_not_handed_over_again() {
    let mut s = WatchState::new();
    dispatched(s.on_file_event(&paths(&["/in/a.mp4"]), CONFIG, 0));
    // still converting, long after
    let d = dispatched(s.on_file_event(&paths(&["/in/a.mp4"]), CONFIG, 60 * SEC));
    assert!(d.is_empty());
    s.finish("/in/a.mp4");
    assert!(s.processing.is_empty());
    let d = dispatched(s.on_file_event(&paths(&["/in/a.mp4"]), CONFIG, 61 * SEC));
    assert_eq!(d, paths(&["/in/a.mp4"]));
}

#[test]
fn recent_file_waits_ten_seconds() {
    let mut s = WatchState::new();
    dispatched(s.on_file_event(&paths(&["/in/a.mp4"]), CONFIG, 5 * SEC));
    s.finish("/in/a.mp4");
    let d = dispatched(s.on_file_event(&paths(&["/in/a.mp4"]), CONFIG, 5 * SEC + RECENT_NANOS - 1));
    assert!(d.is_empty());
    let d = dispatched(s.on_file_event(&paths(&["/in/a.mp4"]), CONFIG, 5 * SEC + RECENT_NANOS));
    assert_eq!(d, paths(&["/in/a.mp4"]));
    assert_eq!(s.processed, vec![("/in/a.mp4".to_string(), 5 * SEC + RECENT_NANOS)]);
}

#[test]
fn old_entries_are_forgotten() {
    let mut s = WatchState::new();
    dispatched(s.on_file_event(&paths(&["/in/a.mp4"]), CONFIG, 0));
    dispatched(s.on_file_event(&paths(&["/in/b.mp4"]), CONFIG, 9 * SEC));
    dispatched(s.on_file_event(&paths(&["/in/c.mp4"]), CONFIG, 12 * SEC));
    let names: Vec<&str> = s.processed.iter().map(|e| e.0.as_str()).collect();
    assert_eq!(names, vec!["/in/b.mp4", "/in/c.mp4"]);
}

#[test]
fn same_path_spelled_differently_is_one_file() {
    let mut s = WatchState::new();
    let d = dispatched(s.on_file_event(&paths(&["/in/a.mp4", "/in//a.mp4"]), CONFIG, 0));
    assert_eq!(d, paths(&["/in/a.mp4"]));
    s.finish("/in/./a.mp4");
    assert!(s.processing.is_empty());
}

#[test]
fn config_change_reloads_with_debounce() {
    let mut s = WatchState::new();
    assert!(matches!(s.on_file_event(&paths(&["/x/y.mp4", CONFIG]), CONFIG, 0), FileEventResponse::ReloadConfig));
    s.config_reloaded(10);
    assert!(s.processing.is_empty());
    assert!(matches!(
        s.on_file_event(&paths(&[CONFIG]), CONFIG, 10 + RELOAD_DEBOUNCE_NANOS),
        FileEventResponse::ConfigChangeTooSoon
    ));
    assert!(matches!(
        s.on_file_event(&paths(&[CONFIG]), CONFIG, 11 + RELOAD_DEBOUNCE_NANOS),
        FileEventResponse::ReloadConfig
    ));
}

#[test]
fn placeholder_folder_is_not_reported() {
    assert_eq!(watch_decision("/srv/in", true), WatchDecision::Watch);
    assert_eq!(watch_decision("/srv/in", false), WatchDecision::ReportMissing);
    assert_eq!(watch_decision("/path/to/the/input/folder", false), WatchDecision::StaySilent);
    assert_eq!(watch_decision("/path/to/the/input/folder", true), WatchDecision::Watch);
    let c = mportal::config::Config::default();
    assert_eq!(watch_decision(&c.portal[0].input_folder, false), WatchDecision::StaySilent);
}

#[test]
fn only_creations_writes_and_renames_to_are_watched() {
    assert!(is_watched_change(ChangeKind::Create));
    assert!(is_watched_change(ChangeKind::ModifyData));
    assert!(is_watched_change(ChangeKind::ModifyName(RenameSide::To)));
    for k in [
        ChangeKind::Any,
        ChangeKind::Access,
        ChangeKind::ModifyMetadata,
        ChangeKind::ModifyName(RenameSide::From),
        ChangeKind::ModifyName(RenameSide::Both),
        ChangeKind::ModifyName(RenameSide::Any),
        ChangeKind::ModifyName(RenameSide::Other),
        ChangeKind::ModifyAny,
        ChangeKind::ModifyOther,
        ChangeKind::Remove,
        ChangeKind::Other,
    ] {
        assert!(!is_watched_change(k));
    }
}

#[test]
fn controller_waits_at_most_twenty_one_times() {
    let mut retries = 0u32;
    let mut waits = 0;
    loop {
        match log_wait_step(retries, false) {
            LogWait::Wait => {
                waits += 1;
                retries += 1;
            }
            LogWait::GiveUp => break,
            LogWait::Follow => unreachable!(),
        }
    }
    assert_eq!(waits, 21);
    assert_eq!(log_wait_step(5, true), LogWait::Follow);
    assert_eq!(log_wait_step(100, true), LogWait::Follow);
}
