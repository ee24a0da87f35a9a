use md_reader::watch::classify::{ChangeKind, EventKind, FsEvent, ModifyKind, RenameMode, Timestamp};
use md_reader::watch::{
    change_event, change_kind_str, changed_path, needs_content, split_dir_name, PathChange,
    WatchPlan, WatchRegistry, GRACE_NANOS,
};

fn at(ms: u64) -> Timestamp {
    Timestamp { nanos: 1_000_000_000 + ms * 1_000_000 }
}

fn event(kind: EventKind, paths: Vec<&str>) -> FsEvent {
    FsEvent { kind, paths: paths.into_iter().map(String::from).collect() }
}

fn keys(changes: &[PathChange]) -> Vec<(String, String, ChangeKind)> {
    let mut out: Vec<(String, String, ChangeKind)> =
        changes.iter().map(|c| (c.dir.clone(), c.name.clone(), c.kind)).collect();
    out.sort_by(|a, b| (a.0.clone(), a.1.clone()).cmp(&(b.0.clone(), b.1.clone())));
    out
}

fn watch_fully(registry: &mut WatchRegistry, path: &str) {
    match registry.watch(path) {
        WatchPlan::WatchDir { dir, name } => registry.track(dir, name),
        WatchPlan::Added => {},
        WatchPlan::Ignored => panic!("path has no directory or file name"),
    }
}

#[test]
fn split_dir_name_separates_directory_and_file() {
    assert_eq!(split_dir_name("/tmp/notes/a.md"), Some(("/tmp/notes".to_string(), "a.md".to_string())));
    assert_eq!(split_dir_name("a.md"), Some((String::new(), "a.md".to_string())));
    assert_eq!(split_dir_name("/"), None);
    assert_eq!(split_dir_name("/tmp/.."), None);
}

#[test]
fn first_file_of_a_directory_asks_for_a_dir_watch() {
    let mut registry = WatchRegistry::new();
    match registry.watch("/docs/a.md") {
        WatchPlan::WatchDir { dir, name } => {
            assert_eq!(dir, "/docs");
            assert_eq!(name, "a.md");
        },
        other => panic!("unexpected plan {other:?}"),
    }
    // Nothing is tracked until the watch runs.
    assert!(!registry.watches(&"/docs".to_string()));
    registry.track("/docs".to_string(), "a.md".to_string());
    assert!(registry.watches(&"/docs".to_string()));
}

#[test]
fn second_file_of_a_directory_shares_its_watch() {
    let mut registry = WatchRegistry::new();
    watch_fully(&mut registry, "/docs/a.md");
    assert!(matches!(registry.watch("/docs/b.md"), WatchPlan::Added));
    assert!(matches!(registry.watch("/docs/a.md"), WatchPlan::Added));
    assert!(matches!(registry.watch("/other/c.md"), WatchPlan::WatchDir { .. }));
}

#[test]
fn unsplittable_paths_are_ignored() {
    let mut registry = WatchRegistry::new();
    assert!(matches!(registry.watch("/"), WatchPlan::Ignored));
    assert_eq!(registry.unwatch("/"), None);
}

#[test]
fn untracking_last_file_drops_the_dir_watch() {
    let mut registry = WatchRegistry::new();
    watch_fully(&mut registry, "/docs/a.md");
    watch_fully(&mut registry, "/docs/b.md");
    assert_eq!(registry.unwatch("/docs/a.md"), None);
    assert!(registry.watches(&"/docs".to_string()));
    assert_eq!(registry.unwatch("/docs/a.md"), None);
    assert_eq!(registry.unwatch("/docs/b.md"), Some("/docs".to_string()));
    assert!(!registry.watches(&"/docs".to_string()));
    assert_eq!(registry.unwatch("/docs/b.md"), None);
}

#[test]
fn events_reach_only_files_of_their_directory() {
    let mut registry = WatchRegistry::new();
    watch_fully(&mut registry, "/docs/a.md");
    watch_fully(&mut registry, "/docs/b.md");
    watch_fully(&mut registry, "/other/a.md");
    let e = event(EventKind::Modify(ModifyKind::Data), vec!["/docs/a.md"]);
    let changes = registry.collect_event_changes(&"/docs".to_string(), &e, at(0));
    assert_eq!(keys(&changes), vec![("/docs".to_string(), "a.md".to_string(), ChangeKind::Reload)]);
}

#[test]
fn atomic_save_through_the_registry_is_a_reload() {
    let mut registry = WatchRegistry::new();
    watch_fully(&mut registry, "/docs/a.md");
    let dir = "/docs".to_string();
    let removed = event(EventKind::Modify(ModifyKind::Name(RenameMode::From)), vec!["/docs/a.md"]);
    assert!(registry.collect_event_changes(&dir, &removed, at(0)).is_empty());
    assert!(registry.collect_tick_changes(at(100)).is_empty());
    let created = event(EventKind::Modify(ModifyKind::Name(RenameMode::To)), vec!["/docs/a.md"]);
    let changes = registry.collect_event_changes(&dir, &created, at(120));
    assert_eq!(keys(&changes), vec![(dir.clone(), "a.md".to_string(), ChangeKind::Reload)]);
    assert!(registry.collect_tick_changes(at(1000)).is_empty());
}

#[test]
fn tick_detaches_after_grace_and_reattaches_on_return() {
    let mut registry = WatchRegistry::new();
    watch_fully(&mut registry, "/docs/a.md");
    watch_fully(&mut registry, "/docs/b.md");
    let dir = "/docs".to_string();
    let removed = event(EventKind::Remove, vec!["/docs/b.md"]);
    assert!(registry.collect_event_changes(&dir, &removed, at(0)).is_empty());
    assert!(registry.collect_tick_changes(at(299)).is_empty());
    let grace_ms = GRACE_NANOS / 1_000_000;
    let changes = registry.collect_tick_changes(at(grace_ms));
    assert_eq!(keys(&changes), vec![(dir.clone(), "b.md".to_string(), ChangeKind::Detached)]);
    assert!(registry.collect_tick_changes(at(2000)).is_empty());
    let created = event(EventKind::Create, vec!["/docs/b.md"]);
    let changes = registry.collect_event_changes(&dir, &created, at(2100));
    assert_eq!(keys(&changes), vec![(dir, "b.md".to_string(), ChangeKind::Reattached)]);
}

#[test]
fn rewatching_keeps_a_files_state() {
    let mut registry = WatchRegistry::new();
    watch_fully(&mut registry, "/docs/a.md");
    let dir = "/docs".to_string();
    let removed = event(EventKind::Remove, vec!["/docs/a.md"]);
    registry.collect_event_changes(&dir, &removed, at(0));
    assert!(matches!(registry.watch("/docs/a.md"), WatchPlan::Added));
    registry.track(dir.clone(), "a.md".to_string());
    let changes = registry.collect_tick_changes(at(500));
    assert_eq!(keys(&changes), vec![(dir, "a.md".to_string(), ChangeKind::Detached)]);
}

#[test]
fn change_kind_names() {
    assert_eq!(change_kind_str(ChangeKind::Reload), "reload");
    assert_eq!(change_kind_str(ChangeKind::Reattached), "reattached");
    assert_eq!(change_kind_str(ChangeKind::Detached), "detached");
}

#[test]
fn change_events_carry_content_except_detached() {
    assert!(needs_content(ChangeKind::Reload));
    assert!(needs_content(ChangeKind::Reattached));
    assert!(!needs_content(ChangeKind::Detached));

    let e = change_event("/docs/a.md".to_string(), ChangeKind::Reload, Some("# hi".to_string())).unwrap();
    assert_eq!(e.path, "/docs/a.md");
    assert_eq!(e.kind, "reload");
    assert_eq!(e.content, Some("# hi".to_string()));

    let e = change_event("/docs/a.md".to_string(), ChangeKind::Reattached, Some(String::new())).unwrap();
    assert_eq!(e.kind, "reattached");
    assert_eq!(e.content, Some(String::new()));

    assert!(change_event("/docs/a.md".to_string(), ChangeKind::Reload, None).is_none());

    let e = change_event("/docs/a.md".to_string(), ChangeKind::Detached, None).unwrap();
    assert_eq!(e.kind, "detached");
    assert_eq!(e.content, None);
}

#[test]
fn one_directory_spelled_two_ways_shares_its_watch() {
    let mut registry = WatchRegistry::new();
    match registry.watch("/docs//notes/a.md") {
        WatchPlan::WatchDir { dir, name } => {
            assert_eq!(dir, "/docs//notes");
            assert_eq!(name, "a.md");
            registry.track(dir, name);
        },
        other => panic!("unexpected plan {other:?}"),
    }
    assert!(registry.watches(&"/docs/notes".to_string()));
    assert!(registry.watches(&"/docs/./notes/".to_string()));
    assert!(!registry.watches(&"/docs".to_string()));
    assert!(matches!(registry.watch("/docs/notes/b.md"), WatchPlan::Added));
    assert!(matches!(registry.watch("/docs/./notes/a.md"), WatchPlan::Added));

    // Events from the watch reach both files; changes carry the spelling the
    // watch was made with.
    let e = event(EventKind::Modify(ModifyKind::Data), vec!["/docs//notes/b.md"]);
    let changes = registry.collect_event_changes(&"/docs//notes".to_string(), &e, at(0));
    assert_eq!(keys(&changes), vec![("/docs//notes".to_string(), "b.md".to_string(), ChangeKind::Reload)]);

    // Closing under either spelling untracks the file; the watch goes with
    // the last one, under the spelling it was made with.
    assert_eq!(registry.unwatch("/docs/notes/a.md"), None);
    assert_eq!(registry.unwatch("/docs/./notes/a.md"), None);
    assert_eq!(registry.unwatch("/docs/notes/b.md"), Some("/docs//notes".to_string()));
    assert!(!registry.watches(&"/docs/notes".to_string()));
}

#[test]
fn a_removal_seen_under_one_spelling_detaches_the_file() {
    let mut registry = WatchRegistry::new();
    watch_fully(&mut registry, "/docs/notes/a.md");
    let removed = event(EventKind::Remove, vec!["/docs/notes/a.md"]);
    registry.collect_event_changes(&"/docs/notes/".to_string(), &removed, at(0));
    let changes = registry.collect_tick_changes(at(400));
    assert_eq!(keys(&changes), vec![("/docs/notes".to_string(), "a.md".to_string(), ChangeKind::Detached)]);
}

#[test]
fn keyed_operations_take_the_directory_identity_as_given() {
    let mut registry = WatchRegistry::new();
    let plan = registry.watch_in("/docs//notes".to_string(), "K".to_string(), "a.md".to_string());
    assert!(matches!(plan, WatchPlan::WatchDir { ref dir, ref name } if dir == "/docs//notes" && name == "a.md"));
    assert!(!registry.watches_key(&"K".to_string()));
    registry.track_in("/docs//notes".to_string(), "K".to_string(), "a.md".to_string());
    assert!(registry.watches_key(&"K".to_string()));
    // Another spelling of the same identity is kept under the first one.
    let plan = registry.watch_in("/elsewhere".to_string(), "K".to_string(), "b.md".to_string());
    assert!(matches!(plan, WatchPlan::Added));

    let names = vec![Some("b.md".to_string()), None];
    let changes = registry.collect_named_event_changes(&"K".to_string(), EventKind::Create, &names, at(0));
    assert_eq!(keys(&changes), vec![("/docs//notes".to_string(), "b.md".to_string(), ChangeKind::Reload)]);
    assert_eq!(changes[0].dir_key, "K");
    let changes = registry.collect_named_event_changes(&"other".to_string(), EventKind::Create, &names, at(0));
    assert!(changes.is_empty());

    assert_eq!(registry.unwatch_in(&"K".to_string(), &"a.md".to_string()), None);
    assert_eq!(registry.unwatch_in(&"K".to_string(), &"a.md".to_string()), None);
    assert_eq!(registry.unwatch_in(&"K".to_string(), &"b.md".to_string()), Some("/docs//notes".to_string()));
    assert!(!registry.watches_key(&"K".to_string()));
}

#[test]
fn changes_are_reported_under_the_joined_path() {
    let mut registry = WatchRegistry::new();
    watch_fully(&mut registry, "/docs//notes/a.md");
    let removed = event(EventKind::Remove, vec!["/docs/notes/a.md"]);
    registry.collect_event_changes(&"/docs//notes".to_string(), &removed, at(0));
    let changes = registry.collect_tick_changes(at(300));
    assert_eq!(changes.len(), 1);
    assert_eq!(changed_path(&changes[0]), "/docs//notes/a.md");
}
