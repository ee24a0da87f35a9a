use md_reader::watch::classify::{
    file_names, notify_event_to_raw, raw_event_from_names, raw_kind, ChangeKind, EventKind, FileWatchState, FsEvent, ModifyKind, RawKind,
    RenameMode, Span, Timestamp,
};

fn start() -> Timestamp {
    Timestamp { nanos: 5_000_000_000 }
}

fn later(base: Timestamp, ms: u64) -> Timestamp {
    Timestamp { nanos: base.nanos + ms * 1_000_000 }
}

fn millis(ms: u64) -> Span {
    Span { nanos: ms * 1_000_000 }
}

#[test]
fn modify_while_attached_is_reload() {
    let mut state = FileWatchState::new();
    let now = start();
    assert_eq!(state.on_event(RawKind::Modified, now), Some(ChangeKind::Reload));
}

#[test]
fn create_while_attached_is_reload() {
    let mut state = FileWatchState::new();
    let now = start();
    assert_eq!(state.on_event(RawKind::Created, now), Some(ChangeKind::Reload));
}

#[test]
fn removed_emits_nothing_immediately() {
    let mut state = FileWatchState::new();
    let now = start();
    assert_eq!(state.on_event(RawKind::Removed, now), None);
}

#[test]
fn removed_then_tick_before_grace_emits_nothing() {
    let mut state = FileWatchState::new();
    let now = start();
    state.on_event(RawKind::Removed, now);
    let grace = millis(300);
    assert_eq!(state.on_tick(later(now, 100), grace), None);
}

#[test]
fn removed_then_tick_after_grace_is_detached() {
    let mut state = FileWatchState::new();
    let now = start();
    state.on_event(RawKind::Removed, now);
    let grace = millis(300);
    assert_eq!(state.on_tick(later(now, 301), grace), Some(ChangeKind::Detached));
}

#[test]
fn removed_then_created_before_grace_is_reload_not_detached() {
    // An atomic save: write-temp-then-rename shows up as a Remove followed
    // almost immediately by a Create for the same name.
    let mut state = FileWatchState::new();
    let now = start();
    assert_eq!(state.on_event(RawKind::Removed, now), None);
    assert_eq!(state.on_event(RawKind::Created, later(now, 20)), Some(ChangeKind::Reload));

    // The grace-period tick must not fire Detached after the fact.
    let grace = millis(300);
    assert_eq!(state.on_tick(later(now, 400), grace), None);
}

#[test]
fn created_after_confirmed_detached_is_reattached() {
    let mut state = FileWatchState::new();
    let now = start();
    state.on_event(RawKind::Removed, now);
    let grace = millis(300);
    assert_eq!(state.on_tick(later(now, 301), grace), Some(ChangeKind::Detached));

    assert_eq!(state.on_event(RawKind::Created, later(now, 500)), Some(ChangeKind::Reattached));
}

#[test]
fn on_tick_is_a_noop_when_nothing_pending() {
    let mut state = FileWatchState::new();
    let now = start();
    assert_eq!(state.on_tick(now, millis(300)), None);
}

fn event(kind: EventKind, paths: Vec<&str>) -> FsEvent {
    FsEvent { kind, paths: paths.into_iter().map(String::from).collect() }
}

#[test]
fn notify_event_ignores_events_for_other_filenames() {
    let e = event(EventKind::Modify(ModifyKind::Any), vec!["/tmp/other.md"]);
    assert_eq!(notify_event_to_raw(&e, "a.md"), None);
}

#[test]
fn notify_event_maps_create_to_created() {
    let e = event(EventKind::Create, vec!["/tmp/a.md"]);
    assert_eq!(notify_event_to_raw(&e, "a.md"), Some(RawKind::Created));
}

#[test]
fn notify_event_maps_modify_data_to_modified() {
    let e = event(EventKind::Modify(ModifyKind::Data), vec!["/tmp/a.md"]);
    assert_eq!(notify_event_to_raw(&e, "a.md"), Some(RawKind::Modified));
}

#[test]
fn notify_event_maps_remove_to_removed() {
    let e = event(EventKind::Remove, vec!["/tmp/a.md"]);
    assert_eq!(notify_event_to_raw(&e, "a.md"), Some(RawKind::Removed));
}

#[test]
fn notify_event_maps_rename_to_target_as_created() {
    let e = event(EventKind::Modify(ModifyKind::Name(RenameMode::To)), vec!["/tmp/a.md"]);
    assert_eq!(notify_event_to_raw(&e, "a.md"), Some(RawKind::Created));
}

#[test]
fn notify_event_maps_rename_from_target_as_removed() {
    let e = event(EventKind::Modify(ModifyKind::Name(RenameMode::From)), vec!["/tmp/a.md"]);
    assert_eq!(notify_event_to_raw(&e, "a.md"), Some(RawKind::Removed));
}

#[test]
fn notify_event_ignores_access_and_other_kinds() {
    for kind in [EventKind::Access, EventKind::Any, EventKind::Other] {
        let e = event(kind, vec!["/tmp/a.md"]);
        assert_eq!(notify_event_to_raw(&e, "a.md"), None);
    }
}

#[test]
fn notify_event_other_modifications_are_modified() {
    for kind in [
        ModifyKind::Any,
        ModifyKind::Metadata,
        ModifyKind::Other,
        ModifyKind::Name(RenameMode::Any),
        ModifyKind::Name(RenameMode::Both),
        ModifyKind::Name(RenameMode::Other),
    ] {
        let e = event(EventKind::Modify(kind), vec!["/tmp/a.md"]);
        assert_eq!(notify_event_to_raw(&e, "a.md"), Some(RawKind::Modified));
    }
}

#[test]
fn notify_event_matches_any_of_several_paths() {
    let e = event(EventKind::Create, vec!["/tmp/b.md", "/tmp/a.md"]);
    assert_eq!(notify_event_to_raw(&e, "a.md"), Some(RawKind::Created));
}

#[test]
fn notify_event_compares_file_names_not_whole_paths() {
    // The whole path is not the file name: handing the path back unchanged
    // would miss this match.
    let e = event(EventKind::Remove, vec!["/some/dir/a.md"]);
    assert_eq!(notify_event_to_raw(&e, "a.md"), Some(RawKind::Removed));
    let e = event(EventKind::Remove, vec!["/some/dir/a.md"]);
    assert_eq!(notify_event_to_raw(&e, "/some/dir/a.md"), None);
    let e = event(EventKind::Remove, vec![]);
    assert_eq!(notify_event_to_raw(&e, "a.md"), None);
}

#[test]
fn tick_exactly_at_grace_is_detached() {
    let mut state = FileWatchState::new();
    let now = start();
    state.on_event(RawKind::Removed, now);
    assert_eq!(state.on_tick(later(now, 299), millis(300)), None);
    assert_eq!(state.on_tick(later(now, 300), millis(300)), Some(ChangeKind::Detached));
}

#[test]
fn detached_is_reported_once() {
    let mut state = FileWatchState::new();
    let now = start();
    state.on_event(RawKind::Removed, now);
    assert_eq!(state.on_tick(later(now, 301), millis(300)), Some(ChangeKind::Detached));
    assert_eq!(state.on_tick(later(now, 900), millis(300)), None);
    assert_eq!(state.on_tick(later(now, 5000), millis(0)), None);
}

#[test]
fn a_tick_reading_earlier_than_the_removal_waits() {
    let mut state = FileWatchState::new();
    let now = later(start(), 1000);
    state.on_event(RawKind::Removed, now);
    assert_eq!(state.on_tick(start(), millis(300)), None);
    assert_eq!(state.on_tick(later(now, 300), millis(300)), Some(ChangeKind::Detached));
}

#[test]
fn repeated_removal_restarts_the_grace_period() {
    let mut state = FileWatchState::new();
    let now = start();
    state.on_event(RawKind::Removed, now);
    state.on_event(RawKind::Removed, later(now, 200));
    assert_eq!(state.on_tick(later(now, 350), millis(300)), None);
    assert_eq!(state.on_tick(later(now, 500), millis(300)), Some(ChangeKind::Detached));
}

#[test]
fn modified_after_detached_is_reattached_and_clears_marker() {
    let mut state = FileWatchState::default();
    let now = start();
    state.on_event(RawKind::Removed, now);
    assert_eq!(state.on_tick(later(now, 400), millis(300)), Some(ChangeKind::Detached));
    assert_eq!(state.on_event(RawKind::Modified, later(now, 450)), Some(ChangeKind::Reattached));
    assert_eq!(state.on_event(RawKind::Modified, later(now, 460)), Some(ChangeKind::Reload));
}

#[test]
fn removal_while_detached_keeps_marker_until_reappearance() {
    let mut state = FileWatchState::new();
    let now = start();
    state.on_event(RawKind::Removed, now);
    assert_eq!(state.on_tick(later(now, 300), millis(300)), Some(ChangeKind::Detached));
    assert_eq!(state.on_event(RawKind::Removed, later(now, 310)), None);
    assert_eq!(state.on_event(RawKind::Created, later(now, 320)), Some(ChangeKind::Reattached));
}

#[test]
fn event_kinds_map_to_raw_kinds() {
    assert_eq!(raw_kind(EventKind::Create), Some(RawKind::Created));
    assert_eq!(raw_kind(EventKind::Remove), Some(RawKind::Removed));
    assert_eq!(raw_kind(EventKind::Modify(ModifyKind::Name(RenameMode::To))), Some(RawKind::Created));
    assert_eq!(raw_kind(EventKind::Modify(ModifyKind::Name(RenameMode::From))), Some(RawKind::Removed));
    assert_eq!(raw_kind(EventKind::Modify(ModifyKind::Name(RenameMode::Both))), Some(RawKind::Modified));
    assert_eq!(raw_kind(EventKind::Modify(ModifyKind::Data)), Some(RawKind::Modified));
    assert_eq!(raw_kind(EventKind::Access), None);
    assert_eq!(raw_kind(EventKind::Any), None);
    assert_eq!(raw_kind(EventKind::Other), None);
}

#[test]
fn file_names_of_an_event_in_order() {
    let e = event(EventKind::Create, vec!["/tmp/a.md", "/", "/x/b.md"]);
    assert_eq!(file_names(&e), vec![Some("a.md".to_string()), None, Some("b.md".to_string())]);
}

#[test]
fn raw_events_from_given_names() {
    let names = vec![None, Some("a.md".to_string())];
    assert_eq!(raw_event_from_names(EventKind::Remove, &names, "a.md"), Some(RawKind::Removed));
    assert_eq!(raw_event_from_names(EventKind::Remove, &names, "b.md"), None);
    assert_eq!(raw_event_from_names(EventKind::Access, &names, "a.md"), None);
    assert_eq!(raw_event_from_names(EventKind::Create, &Vec::new(), "a.md"), None);
}
