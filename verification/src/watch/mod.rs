pub mod classify;

use vstd::prelude::*;

use crate::paths::{
    file_name_of, identity_of, joined, parent_of, path_file_name, path_identity, path_join, path_parent,
};
use crate::watch::classify::{
    elapsed, event_file_names, file_names, law_raw_event_named, raw_event_from_names, raw_event_named,
    ChangeKind, EventKind, FileWatchState, FsEvent, ModifyKind, RawKind, RenameMode, Span, Timestamp,
};

verus! {

/// How long a removal stays pending before it is confirmed as Detached, in
/// nanoseconds.
pub const GRACE_NANOS: u64 = 300_000_000;

/// How often pending removals are resolved, in nanoseconds.
pub const TICK_INTERVAL_NANOS: u64 = 100_000_000;

pub open spec fn grace() -> Span {
    Span { nanos: GRACE_NANOS }
}

/// A tracked file is named by its directory, as paths compare
/// (`path_identity`), and its file name.
pub type FileKey = (Seq<char>, Seq<char>);

/// What happens to a tracked file: its new state, and what it emits.
pub type FileEffect = spec_fn(FileKey, FileWatchState) -> (FileWatchState, Option<ChangeKind>);

/// The directory and the file name of a path, when it has both.
pub open spec fn split_path(path: Seq<char>) -> Option<(Seq<char>, Seq<char>)> {
    match (path_parent(path), path_file_name(path)) {
        (Some(dir), Some(name)) => Some((dir, name)),
        _ => None,
    }
}

/// Whether some file of the directory `dir` (as paths compare) is tracked,
/// that is, whether the directory has a watch.
pub open spec fn watches_dir(files: Map<FileKey, FileWatchState>, dir: Seq<char>) -> bool {
    exists|name: Seq<char>| #[trigger] files.contains_key((dir, name))
}

/// The state of a tracked file after a raw event that may or may not concern
/// it, and what it emits.
pub open spec fn event_outcome(state: FileWatchState, raw: Option<RawKind>, now: Timestamp) -> (
    FileWatchState,
    Option<ChangeKind>,
) {
    match raw {
        Some(kind) => state.event_step(kind, now),
        None => (state, None),
    }
}

/// What a tick at `now` does to every tracked file.
pub open spec fn tick_effect(now: Timestamp) -> FileEffect {
    |key: FileKey, state: FileWatchState| state.tick_step(now, grace())
}

/// What a raw event, of kind `kind` on entries with the file names `names`,
/// from the watch of the directory `dir` (as paths compare) does to every
/// tracked file: a file of another directory is left alone.
pub open spec fn named_event_effect(
    dir: Seq<char>,
    kind: EventKind,
    names: Seq<Option<Seq<char>>>,
    now: Timestamp,
) -> FileEffect {
    |key: FileKey, state: FileWatchState|
        if key.0 == dir {
            event_outcome(state, raw_event_named(kind, names, key.1), now)
        } else {
            (state, None)
        }
}

/// What a raw event from the watch of the directory `dir` (as paths compare)
/// does to every tracked file.
pub open spec fn event_effect(dir: Seq<char>, event: FsEvent, now: Timestamp) -> FileEffect {
    named_event_effect(dir, event.kind, event_file_names(event), now)
}

/// `out` reports, once each, exactly the tracked files of `before` for which
/// `effect` emits a change, with that change, each under the spelling that
/// `spellings` holds for its directory.
pub open spec fn reports(
    out: Seq<PathChange>,
    before: Map<FileKey, FileWatchState>,
    spellings: Map<Seq<char>, Seq<char>>,
    effect: FileEffect,
) -> bool {
    &&& forall|j: int|
        0 <= j < out.len() ==> {
            &&& before.contains_key(#[trigger] out[j].key())
            &&& effect(out[j].key(), before[out[j].key()]).1 == Some(out[j].kind)
            &&& spellings.contains_key(out[j].key().0)
            &&& out[j].dir@ == spellings[out[j].key().0]
        }
    &&& forall|k: FileKey|
        #[trigger] before.contains_key(k) && effect(k, before[k]).1 is Some ==> exists|j: int|
            0 <= j < out.len() && (#[trigger] out[j].key()) == k
    &&& forall|a: int, b: int|
        0 <= a < out.len() && 0 <= b < out.len() && a != b ==> (#[trigger] out[a].key()) != (
        #[trigger] out[b].key())
}

/// The directory and the file name of `path`, when it has both.
pub fn split_dir_name(path: &str) -> (split: Option<(String, String)>)
    ensures
        split.deep_view() == split_path(path@),
{
    let dir = match parent_of(path) {
        Some(d) => d,
        None => {
            return None;
        },
    };
    let name = match file_name_of(path) {
        Some(n) => n,
        None => {
            return None;
        },
    };
    Some((dir, name))
}

/// A change as the frontend receives it.
#[derive(Debug, Clone)]
pub struct ChangeEvent {
    pub path: String,
    pub kind: &'static str,
    pub content: Option<String>,
}

/// The name under which the frontend knows a change.
pub open spec fn change_kind_name(change: ChangeKind) -> Seq<char> {
    match change {
        ChangeKind::Reload => "reload"@,
        ChangeKind::Reattached => "reattached"@,
        ChangeKind::Detached => "detached"@,
    }
}

pub fn change_kind_str(change: ChangeKind) -> (name: &'static str)
    ensures
        name@ == change_kind_name(change),
{
    match change {
        ChangeKind::Reload => "reload",
        ChangeKind::Reattached => "reattached",
        ChangeKind::Detached => "detached",
    }
}

/// Whether reporting `change` needs the file's current content: a Reload or
/// a Reattached carries it, a Detached does not.
pub fn needs_content(change: ChangeKind) -> (needed: bool)
    ensures
        needed == (change != ChangeKind::Detached),
{
    match change {
        ChangeKind::Reload | ChangeKind::Reattached => true,
        ChangeKind::Detached => false,
    }
}

/// The event to emit for `change` at `path`, given the file's content as
/// read just now (`None` when reading failed). A Reload or a Reattached whose
/// file vanished before it could be read is not surfaced: a follow-up
/// removal will resolve into Detached once the grace period elapses.
pub fn change_event(path: String, change: ChangeKind, content: Option<String>) -> (event: Option<ChangeEvent>)
    ensures
        event is Some <==> (change == ChangeKind::Detached || content is Some),
        event matches Some(e) ==> {
            &&& e.path@ == path@
            &&& e.kind@ == change_kind_name(change)
            &&& e.content.deep_view() == (if change == ChangeKind::Detached {
                None
            } else {
                content.deep_view()
            })
        },
{
    match change {
        ChangeKind::Reload | ChangeKind::Reattached => match content {
            Some(text) => Some(ChangeEvent { path, kind: change_kind_str(change), content: Some(text) }),
            None => None,
        },
        ChangeKind::Detached => Some(ChangeEvent { path, kind: change_kind_str(change), content: None }),
    }
}

/// A tracked file, and what happened to it so far.
struct TrackedFile {
    /// The directory, spelled as it was when its watch was made.
    dir: String,
    /// The directory as paths compare (its identity): files are told apart
    /// by this and their name.
    dir_key: String,
    name: String,
    state: FileWatchState,
}

spec fn key_of(file: TrackedFile) -> FileKey {
    (file.dir_key@, file.name@)
}

spec fn keys_distinct(files: Seq<TrackedFile>) -> bool {
    forall|i: int, j: int| 0 <= i < files.len() && 0 <= j < files.len() && i != j ==> key_of(
        #[trigger] files[i],
    ) != key_of(#[trigger] files[j])
}

/// The files of one directory share one spelling of it.
spec fn spelled_consistently(files: Seq<TrackedFile>) -> bool {
    forall|i: int, j: int|
        0 <= i < files.len() && 0 <= j < files.len() && (#[trigger] files[i]).dir_key@ == (
        #[trigger] files[j]).dir_key@ ==> files[i].dir@ == files[j].dir@
}

spec fn files_wf(files: Seq<TrackedFile>) -> bool {
    keys_distinct(files) && spelled_consistently(files)
}

spec fn has_key_at(files: Seq<TrackedFile>, k: FileKey, i: int) -> bool {
    0 <= i < files.len() && key_of(files[i]) == k
}

spec fn has_dir_at(files: Seq<TrackedFile>, dir: Seq<char>, i: int) -> bool {
    0 <= i < files.len() && files[i].dir_key@ == dir
}

spec fn tracked_of(files: Seq<TrackedFile>) -> Map<FileKey, FileWatchState> {
    Map::new(
        |k: FileKey| exists|i: int| has_key_at(files, k, i),
        |k: FileKey| files[choose|i: int| has_key_at(files, k, i)].state,
    )
}

spec fn spellings_of(files: Seq<TrackedFile>) -> Map<Seq<char>, Seq<char>> {
    Map::new(
        |dir: Seq<char>| exists|i: int| has_dir_at(files, dir, i),
        |dir: Seq<char>| files[choose|i: int| has_dir_at(files, dir, i)].dir@,
    )
}

proof fn lemma_tracked_of(files: Seq<TrackedFile>)
    requires
        keys_distinct(files),
    ensures
        forall|i: int|
            0 <= i < files.len() ==> #[trigger] tracked_of(files).contains_key(key_of(files[i]))
                && tracked_of(files)[key_of(files[i])] == files[i].state,
        forall|k: FileKey|
            #[trigger] tracked_of(files).contains_key(k) ==> exists|i: int| has_key_at(files, k, i),
{
    assert forall|i: int| 0 <= i < files.len() implies #[trigger] tracked_of(files).contains_key(
        key_of(files[i]),
    ) && tracked_of(files)[key_of(files[i])] == files[i].state by {
        assert(has_key_at(files, key_of(files[i]), i));
        let j = choose|j: int| has_key_at(files, key_of(files[i]), j);
        assert(files[i] == files[j]) by {
            if i != j {
                assert(key_of(files[i]) != key_of(files[j]));
            }
        }
    }
}

proof fn lemma_spellings_of(files: Seq<TrackedFile>)
    requires
        spelled_consistently(files),
    ensures
        forall|i: int|
            0 <= i < files.len() ==> #[trigger] spellings_of(files).contains_key(files[i].dir_key@)
                && spellings_of(files)[files[i].dir_key@] == files[i].dir@,
        forall|dir: Seq<char>|
            #[trigger] spellings_of(files).contains_key(dir) ==> exists|i: int| has_dir_at(files, dir, i),
{
    assert forall|i: int| 0 <= i < files.len() implies #[trigger] spellings_of(files).contains_key(
        files[i].dir_key@,
    ) && spellings_of(files)[files[i].dir_key@] == files[i].dir@ by {
        assert(has_dir_at(files, files[i].dir_key@, i));
        let j = choose|j: int| has_dir_at(files, files[i].dir_key@, j);
        assert(files[i].dir_key@ == files[j].dir_key@);
    }
}

/// A directory has a spelling exactly when one of its files is tracked.
proof fn lemma_watched_iff_spelled(files: Seq<TrackedFile>)
    requires
        files_wf(files),
    ensures
        forall|dir: Seq<char>|
            #[trigger] spellings_of(files).contains_key(dir) == watches_dir(tracked_of(files), dir),
{
    lemma_tracked_of(files);
    lemma_spellings_of(files);
    assert forall|dir: Seq<char>| #[trigger] spellings_of(files).contains_key(dir) == watches_dir(
        tracked_of(files),
        dir,
    ) by {
        if spellings_of(files).contains_key(dir) {
            let i = choose|i: int| has_dir_at(files, dir, i);
            assert(tracked_of(files).contains_key(key_of(files[i])));
            assert(key_of(files[i]) == (dir, files[i].name@));
        }
        if watches_dir(tracked_of(files), dir) {
            let name = choose|name: Seq<char>| #[trigger] tracked_of(files).contains_key((dir, name));
            let i = choose|i: int| has_key_at(files, (dir, name), i);
            assert(has_dir_at(files, dir, i));
        }
    }
}

proof fn lemma_push(before: Seq<TrackedFile>, file: TrackedFile)
    requires
        files_wf(before),
        !tracked_of(before).contains_key(key_of(file)),
        spellings_of(before).contains_key(file.dir_key@) ==> spellings_of(before)[file.dir_key@]
            == file.dir@,
    ensures
        files_wf(before.push(file)),
        tracked_of(before.push(file)) == tracked_of(before).insert(key_of(file), file.state),
        spellings_of(before.push(file)) == (if spellings_of(before).contains_key(file.dir_key@) {
            spellings_of(before)
        } else {
            spellings_of(before).insert(file.dir_key@, file.dir@)
        }),
{
    let after = before.push(file);
    let k = key_of(file);
    let d = file.dir_key@;
    lemma_tracked_of(before);
    lemma_spellings_of(before);
    assert forall|i: int, j: int|
        0 <= i < after.len() && 0 <= j < after.len() && i != j implies key_of(#[trigger] after[i])
        != key_of(#[trigger] after[j]) by {
        if i < before.len() && j < before.len() {
            assert(after[i] == before[i] && after[j] == before[j]);
        } else if i < before.len() {
            assert(tracked_of(before).contains_key(key_of(before[i])));
            assert(after[i] == before[i]);
        } else if j < before.len() {
            assert(tracked_of(before).contains_key(key_of(before[j])));
            assert(after[j] == before[j]);
        }
    }
    assert forall|i: int, j: int|
        0 <= i < after.len() && 0 <= j < after.len() && (#[trigger] after[i]).dir_key@ == (
        #[trigger] after[j]).dir_key@ implies after[i].dir@ == after[j].dir@ by {
        if i < before.len() {
            assert(after[i] == before[i]);
        }
        if j < before.len() {
            assert(after[j] == before[j]);
        }
        if i < before.len() && j == before.len() {
            assert(spellings_of(before).contains_key(before[i].dir_key@));
        }
        if j < before.len() && i == before.len() {
            assert(spellings_of(before).contains_key(before[j].dir_key@));
        }
    }
    lemma_tracked_of(after);
    assert forall|q: FileKey| #[trigger] tracked_of(after).contains_key(q) == tracked_of(
        before,
    ).insert(k, file.state).contains_key(q) by {
        if tracked_of(after).contains_key(q) {
            let j = choose|j: int| has_key_at(after, q, j);
            if j < before.len() {
                assert(after[j] == before[j]);
            }
        }
        if tracked_of(before).contains_key(q) {
            let j = choose|j: int| has_key_at(before, q, j);
            assert(after[j] == before[j]);
        }
        if q == k {
            assert(has_key_at(after, q, before.len() as int));
        }
    }
    assert forall|q: FileKey| #[trigger] tracked_of(after).contains_key(q) implies tracked_of(
        after,
    )[q] == tracked_of(before).insert(k, file.state)[q] by {
        let j = choose|j: int| has_key_at(after, q, j);
        if j < before.len() {
            assert(after[j] == before[j]);
        }
    }
    assert(tracked_of(after) =~= tracked_of(before).insert(k, file.state));
    let expected = if spellings_of(before).contains_key(d) {
        spellings_of(before)
    } else {
        spellings_of(before).insert(d, file.dir@)
    };
    lemma_spellings_of(after);
    assert forall|q: Seq<char>| #[trigger] spellings_of(after).contains_key(q) == expected.contains_key(q) by {
        if spellings_of(after).contains_key(q) {
            let j = choose|j: int| has_dir_at(after, q, j);
            if j < before.len() {
                assert(after[j] == before[j]);
                assert(spellings_of(before).contains_key(before[j].dir_key@));
            }
        }
        if spellings_of(before).contains_key(q) {
            let j = choose|j: int| has_dir_at(before, q, j);
            assert(after[j] == before[j]);
            assert(has_dir_at(after, q, j));
        }
        if q == d {
            assert(has_dir_at(after, q, before.len() as int));
        }
    }
    assert forall|q: Seq<char>| #[trigger] spellings_of(after).contains_key(q) implies spellings_of(
        after,
    )[q] == expected[q] by {
        let j = choose|j: int| has_dir_at(after, q, j);
        assert(spellings_of(after)[after[j].dir_key@] == after[j].dir@);
        if j < before.len() {
            assert(after[j] == before[j]);
            assert(spellings_of(before)[before[j].dir_key@] == before[j].dir@);
        }
    }
    assert(spellings_of(after) =~= expected);
}

proof fn lemma_remove(before: Seq<TrackedFile>, i: int)
    requires
        files_wf(before),
        0 <= i < before.len(),
    ensures
        files_wf(before.remove(i)),
        tracked_of(before.remove(i)) == tracked_of(before).remove(key_of(before[i])),
        tracked_of(before).contains_key(key_of(before[i])),
        spellings_of(before)[before[i].dir_key@] == before[i].dir@,
        spellings_of(before.remove(i)).contains_key(before[i].dir_key@) ==> spellings_of(
            before.remove(i),
        ) == spellings_of(before),
        !spellings_of(before.remove(i)).contains_key(before[i].dir_key@) ==> spellings_of(
            before.remove(i),
        ) == spellings_of(before).remove(before[i].dir_key@),
{
    let after = before.remove(i);
    let k = key_of(before[i]);
    let d = before[i].dir_key@;
    lemma_tracked_of(before);
    lemma_spellings_of(before);
    assert(spellings_of(before).contains_key(before[i].dir_key@));
    assert(tracked_of(before).contains_key(key_of(before[i])));
    assert forall|a: int, b: int|
        0 <= a < after.len() && 0 <= b < after.len() && a != b implies key_of(#[trigger] after[a])
        != key_of(#[trigger] after[b]) by {
        let a0 = if a < i { a } else { a + 1 };
        let b0 = if b < i { b } else { b + 1 };
        assert(after[a] == before[a0] && after[b] == before[b0]);
    }
    assert forall|a: int, b: int|
        0 <= a < after.len() && 0 <= b < after.len() && (#[trigger] after[a]).dir_key@ == (
        #[trigger] after[b]).dir_key@ implies after[a].dir@ == after[b].dir@ by {
        let a0 = if a < i { a } else { a + 1 };
        let b0 = if b < i { b } else { b + 1 };
        assert(after[a] == before[a0] && after[b] == before[b0]);
    }
    lemma_tracked_of(after);
    assert forall|q: FileKey| #[trigger] tracked_of(after).contains_key(q) == tracked_of(
        before,
    ).remove(k).contains_key(q) by {
        if tracked_of(after).contains_key(q) {
            let j = choose|j: int| has_key_at(after, q, j);
            let j0 = if j < i { j } else { j + 1 };
            assert(after[j] == before[j0]);
        }
        if tracked_of(before).contains_key(q) && q != k {
            let j = choose|j: int| has_key_at(before, q, j);
            let j1 = if j < i { j } else { j - 1 };
            assert(after[j1] == before[j]);
        }
    }
    assert forall|q: FileKey| #[trigger] tracked_of(after).contains_key(q) implies tracked_of(
        after,
    )[q] == tracked_of(before).remove(k)[q] by {
        let j = choose|j: int| has_key_at(after, q, j);
        let j0 = if j < i { j } else { j + 1 };
        assert(after[j] == before[j0]);
    }
    assert(tracked_of(after) =~= tracked_of(before).remove(k));
    lemma_spellings_of(after);
    let expected = if spellings_of(after).contains_key(d) {
        spellings_of(before)
    } else {
        spellings_of(before).remove(d)
    };
    assert forall|q: Seq<char>| #[trigger] spellings_of(after).contains_key(q) == expected.contains_key(q) by {
        if spellings_of(after).contains_key(q) {
            let j = choose|j: int| has_dir_at(after, q, j);
            let j0 = if j < i { j } else { j + 1 };
            assert(after[j] == before[j0]);
            assert(has_dir_at(before, q, j0));
        }
        if spellings_of(before).contains_key(q) && q != d {
            let j = choose|j: int| has_dir_at(before, q, j);
            let j1 = if j < i { j } else { j - 1 };
            assert(after[j1] == before[j]);
            assert(has_dir_at(after, q, j1));
        }
    }
    assert forall|q: Seq<char>| #[trigger] spellings_of(after).contains_key(q) implies spellings_of(
        after,
    )[q] == expected[q] by {
        let j = choose|j: int| has_dir_at(after, q, j);
        let j0 = if j < i { j } else { j + 1 };
        assert(after[j] == before[j0]);
        assert(spellings_of(after)[after[j].dir_key@] == after[j].dir@);
        assert(spellings_of(before)[before[j0].dir_key@] == before[j0].dir@);
    }
    assert(spellings_of(after) =~= expected);
}

/// `a` is `b` with possibly another state.
spec fn same_place(a: TrackedFile, b: TrackedFile) -> bool {
    a.dir == b.dir && a.dir_key == b.dir_key && a.name == b.name
}

/// The change `c` reports what `effect` makes the file `before[j]` emit.
spec fn reported_at(before: Seq<TrackedFile>, c: PathChange, j: int, effect: FileEffect) -> bool {
    &&& 0 <= j < before.len()
    &&& c.dir@ == before[j].dir@
    &&& c.dir_key@ == before[j].dir_key@
    &&& c.name@ == before[j].name@
    &&& effect(key_of(before[j]), before[j].state).1 == Some(c.kind)
}

/// The change `c` reports what one of the first `i` files of `before` emits.
spec fn reported_before(before: Seq<TrackedFile>, c: PathChange, i: int, effect: FileEffect) -> bool {
    exists|j: int| j < i && reported_at(before, c, j, effect)
}

/// What `before[j]` emits is among `changes`.
spec fn listed(changes: Seq<PathChange>, before: Seq<TrackedFile>, j: int, effect: FileEffect) -> bool {
    exists|o: int| 0 <= o < changes.len() && reported_at(before, changes[o], j, effect)
}

/// The first `i` files of `before` have gone through `effect`, giving
/// `files`, and `changes` reports, once each, what they emitted.
spec fn progress(
    before: Seq<TrackedFile>,
    files: Seq<TrackedFile>,
    changes: Seq<PathChange>,
    i: int,
    effect: FileEffect,
) -> bool {
    &&& files.len() == before.len()
    &&& 0 <= i <= before.len()
    &&& forall|j: int| 0 <= j < before.len() ==> same_place(#[trigger] files[j], before[j])
    &&& forall|j: int|
        0 <= j < i ==> (#[trigger] files[j]).state == effect(key_of(before[j]), before[j].state).0
    &&& forall|j: int| i <= j < before.len() ==> #[trigger] files[j] == before[j]
    &&& forall|o: int| 0 <= o < changes.len() ==> #[trigger] reported_before(before, changes[o], i, effect)
    &&& forall|j: int|
        0 <= j < i && effect(key_of(before[j]), before[j].state).1 is Some ==> #[trigger] listed(
            changes,
            before,
            j,
            effect,
        )
    &&& forall|a: int, b: int|
        0 <= a < changes.len() && 0 <= b < changes.len() && a != b ==> (#[trigger] changes[a]).key() != (
        #[trigger] changes[b]).key()
}

proof fn lemma_progress_start(before: Seq<TrackedFile>, effect: FileEffect)
    ensures
        progress(before, before, Seq::empty(), 0, effect),
{
}

proof fn lemma_progress_step(
    before: Seq<TrackedFile>,
    files: Seq<TrackedFile>,
    changes: Seq<PathChange>,
    i: int,
    effect: FileEffect,
    next_files: Seq<TrackedFile>,
    next_changes: Seq<PathChange>,
)
    requires
        files_wf(before),
        progress(before, files, changes, i, effect),
        i < before.len(),
        next_files.len() == files.len(),
        forall|j: int| 0 <= j < files.len() && j != i ==> next_files[j] == files[j],
        same_place(next_files[i], before[i]),
        next_files[i].state == effect(key_of(before[i]), before[i].state).0,
        effect(key_of(before[i]), before[i].state).1 is None ==> next_changes == changes,
        effect(key_of(before[i]), before[i].state).1 is Some ==> {
            &&& next_changes.len() == changes.len() + 1
            &&& forall|o: int| 0 <= o < changes.len() ==> next_changes[o] == changes[o]
            &&& reported_at(before, next_changes[changes.len() as int], i, effect)
        },
    ensures
        progress(before, next_files, next_changes, i + 1, effect),
{
    let emitted = effect(key_of(before[i]), before[i].state).1;
    assert forall|j: int| 0 <= j < before.len() implies same_place(#[trigger] next_files[j], before[j]) by {
        if j != i {
            assert(next_files[j] == files[j]);
        }
    }
    assert forall|j: int| 0 <= j < i + 1 implies (#[trigger] next_files[j]).state == effect(
        key_of(before[j]),
        before[j].state,
    ).0 by {
        if j != i {
            assert(next_files[j] == files[j]);
        }
    }
    assert forall|j: int| i + 1 <= j < before.len() implies #[trigger] next_files[j] == before[j] by {
        assert(next_files[j] == files[j]);
    }
    assert forall|o: int| 0 <= o < next_changes.len() implies #[trigger] reported_before(
        before,
        next_changes[o],
        i + 1,
        effect,
    ) by {
        if o < changes.len() {
            assert(next_changes[o] == changes[o]);
            assert(reported_before(before, changes[o], i, effect));
            let j = choose|j: int| j < i && reported_at(before, changes[o], j, effect);
            assert(reported_at(before, next_changes[o], j, effect));
        } else {
            assert(reported_at(before, next_changes[o], i, effect));
        }
    }
    assert forall|j: int|
        0 <= j < i + 1 && effect(key_of(before[j]), before[j].state).1 is Some implies #[trigger] listed(
        next_changes,
        before,
        j,
        effect,
    ) by {
        if j < i {
            assert(listed(changes, before, j, effect));
            let o = choose|o: int| 0 <= o < changes.len() && reported_at(before, changes[o], j, effect);
            assert(next_changes[o] == changes[o]);
            assert(reported_at(before, next_changes[o], j, effect));
        } else {
            assert(reported_at(before, next_changes[changes.len() as int], j, effect));
        }
    }
    assert forall|a: int, b: int|
        0 <= a < next_changes.len() && 0 <= b < next_changes.len() && a != b implies (
        #[trigger] next_changes[a]).key() != (#[trigger] next_changes[b]).key() by {
        if a < changes.len() && b < changes.len() {
            assert(next_changes[a] == changes[a] && next_changes[b] == changes[b]);
        } else if a < changes.len() {
            assert(next_changes[a] == changes[a]);
            assert(reported_before(before, changes[a], i, effect));
            let j = choose|j: int| j < i && reported_at(before, changes[a], j, effect);
            assert(key_of(before[j]) != key_of(before[i]));
        } else if b < changes.len() {
            assert(next_changes[b] == changes[b]);
            assert(reported_before(before, changes[b], i, effect));
            let j = choose|j: int| j < i && reported_at(before, changes[b], j, effect);
            assert(key_of(before[j]) != key_of(before[i]));
        }
    }
}

proof fn lemma_progress_done(
    before: Seq<TrackedFile>,
    after: Seq<TrackedFile>,
    changes: Seq<PathChange>,
    effect: FileEffect,
)
    requires
        files_wf(before),
        progress(before, after, changes, before.len() as int, effect),
    ensures
        files_wf(after),
        tracked_of(after).dom() == tracked_of(before).dom(),
        forall|k: FileKey| #[trigger]
            tracked_of(before).contains_key(k) ==> tracked_of(after)[k] == effect(
                k,
                tracked_of(before)[k],
            ).0,
        spellings_of(after) == spellings_of(before),
        reports(changes, tracked_of(before), spellings_of(before), effect),
{
    let n = before.len();
    lemma_tracked_of(before);
    lemma_spellings_of(before);
    assert forall|i: int, j: int|
        0 <= i < n && 0 <= j < n && i != j implies key_of(#[trigger] after[i]) != key_of(#[trigger] after[j]) by {
        assert(same_place(after[i], before[i]) && same_place(after[j], before[j]));
    }
    assert forall|i: int, j: int|
        0 <= i < n && 0 <= j < n && (#[trigger] after[i]).dir_key@ == (#[trigger] after[j]).dir_key@ implies after[i].dir@
        == after[j].dir@ by {
        assert(same_place(after[i], before[i]) && same_place(after[j], before[j]));
    }
    lemma_tracked_of(after);
    lemma_spellings_of(after);
    assert forall|q: FileKey| #[trigger] tracked_of(after).dom().contains(q) == tracked_of(before).dom().contains(q) by {
        if tracked_of(after).contains_key(q) {
            let j = choose|j: int| has_key_at(after, q, j);
            assert(same_place(after[j], before[j]));
            assert(has_key_at(before, q, j));
        }
        if tracked_of(before).contains_key(q) {
            let j = choose|j: int| has_key_at(before, q, j);
            assert(same_place(after[j], before[j]));
            assert(has_key_at(after, q, j));
        }
    }
    assert(tracked_of(after).dom() =~= tracked_of(before).dom());
    assert forall|k: FileKey| #[trigger] tracked_of(before).contains_key(k) implies tracked_of(after)[k]
        == effect(k, tracked_of(before)[k]).0 by {
        let j = choose|j: int| has_key_at(before, k, j);
        assert(same_place(after[j], before[j]));
        assert(key_of(after[j]) == k);
        assert(tracked_of(after)[key_of(after[j])] == after[j].state);
    }
    assert forall|q: Seq<char>| #[trigger] spellings_of(after).contains_key(q) == spellings_of(before).contains_key(q) by {
        if spellings_of(after).contains_key(q) {
            let j = choose|j: int| has_dir_at(after, q, j);
            assert(same_place(after[j], before[j]));
            assert(has_dir_at(before, q, j));
        }
        if spellings_of(before).contains_key(q) {
            let j = choose|j: int| has_dir_at(before, q, j);
            assert(same_place(after[j], before[j]));
            assert(has_dir_at(after, q, j));
        }
    }
    assert forall|q: Seq<char>| #[trigger] spellings_of(after).contains_key(q) implies spellings_of(after)[q]
        == spellings_of(before)[q] by {
        let j = choose|j: int| has_dir_at(after, q, j);
        assert(same_place(after[j], before[j]));
        assert(spellings_of(after)[after[j].dir_key@] == after[j].dir@);
        assert(spellings_of(before)[before[j].dir_key@] == before[j].dir@);
    }
    assert(spellings_of(after) =~= spellings_of(before));
    assert forall|o: int| 0 <= o < changes.len() implies {
        &&& tracked_of(before).contains_key(#[trigger] changes[o].key())
        &&& effect(changes[o].key(), tracked_of(before)[changes[o].key()]).1 == Some(changes[o].kind)
        &&& spellings_of(before).contains_key(changes[o].key().0)
        &&& changes[o].dir@ == spellings_of(before)[changes[o].key().0]
    } by {
        assert(reported_before(before, changes[o], n as int, effect));
        let j = choose|j: int| j < n && reported_at(before, changes[o], j, effect);
        assert(changes[o].key() == key_of(before[j]));
    }
    assert forall|k: FileKey|
        #[trigger] tracked_of(before).contains_key(k) && effect(k, tracked_of(before)[k]).1 is Some implies exists|o: int|
        0 <= o < changes.len() && (#[trigger] changes[o].key()) == k by {
        let j = choose|j: int| has_key_at(before, k, j);
        assert(effect(key_of(before[j]), before[j].state).1 is Some);
        assert(listed(changes, before, j, effect));
        let o = choose|o: int| 0 <= o < changes.len() && reported_at(before, changes[o], j, effect);
        assert(changes[o].key() == k);
    }
}

/// A change to report for the file `name` in the directory `dir`.
#[derive(Debug)]
pub struct PathChange {
    /// The directory, as it is spelled in the registry.
    pub dir: String,
    /// The directory as paths compare.
    pub dir_key: String,
    pub name: String,
    pub kind: ChangeKind,
}

impl PathChange {
    /// The tracked file this change is about.
    pub open spec fn key(self) -> FileKey {
        (self.dir_key@, self.name@)
    }
}

/// The path a change is reported under: its file name joined onto its
/// directory, as the directory is spelled in the registry.
pub fn changed_path(change: &PathChange) -> (path: String)
    ensures
        path@ == path_join(change.dir@, change.name@),
{
    joined(change.dir.as_str(), change.name.as_str())
}

/// What `WatchRegistry::watch` asks of its caller.
#[derive(Debug)]
pub enum WatchPlan {
    /// The path has no directory or no file name: nothing is tracked.
    Ignored,
    /// The file's directory already has a watch; the file is tracked.
    Added,
    /// The directory has no watch yet. Once one is running, hand the two
    /// names to `WatchRegistry::track`.
    WatchDir { dir: String, name: String },
}

/// Every tracked file, grouped by directory: one directory watch is shared by
/// every open tab whose file lives there, and it exists exactly as long as
/// one of its files is tracked. Directories are told apart as paths compare,
/// so `/docs//notes` and `/docs/notes/` are one directory, kept under the
/// spelling it had when its watch was made.
pub struct WatchRegistry {
    files: Vec<TrackedFile>,
}

impl View for WatchRegistry {
    type V = Map<FileKey, FileWatchState>;

    closed spec fn view(&self) -> Map<FileKey, FileWatchState> {
        tracked_of(self.files@)
    }
}

impl WatchRegistry {
    /// No tracked file occurs twice, and each directory has one spelling.
    #[verifier::type_invariant]
    spec fn wf(&self) -> bool {
        files_wf(self.files@)
    }

    /// The directories that have a watch, by identity, each with the spelling
    /// it is kept under.
    pub closed spec fn dir_spellings(&self) -> Map<Seq<char>, Seq<char>> {
        spellings_of(self.files@)
    }

    /// A directory has a watch exactly when one of its files is tracked.
    pub open spec fn dirs_follow_files(&self) -> bool {
        forall|dir: Seq<char>| #[trigger] self.dir_spellings().contains_key(dir) == watches_dir(self@, dir)
    }

    pub fn new() -> (registry: Self)
        ensures
            registry@ == Map::<FileKey, FileWatchState>::empty(),
            registry.dir_spellings() == Map::<Seq<char>, Seq<char>>::empty(),
            registry.dirs_follow_files(),
    {
        let registry = WatchRegistry { files: Vec::new() };
        assert(registry@ =~= Map::<FileKey, FileWatchState>::empty());
        assert(registry.dir_spellings() =~= Map::<Seq<char>, Seq<char>>::empty());
        registry
    }

    /// The position of a tracked file.
    fn position(&self, dir_key: &String, name: &String) -> (pos: Option<usize>)
        ensures
            match pos {
                Some(i) => i < self.files@.len() && key_of(self.files@[i as int]) == (dir_key@, name@),
                None => !self@.contains_key((dir_key@, name@)),
            },
    {
        proof {
            use_type_invariant(self);
            lemma_tracked_of(self.files@);
        }
        let n = self.files.len();
        let mut i: usize = 0;
        while i < n
            invariant
                n == self.files@.len(),
                i <= n,
                forall|j: int| 0 <= j < i ==> key_of(#[trigger] self.files@[j]) != (dir_key@, name@),
            decreases n - i,
        {
            if self.files[i].dir_key == *dir_key && self.files[i].name == *name {
                return Some(i);
            }
            i = i + 1;
        }
        None
    }

    /// The spelling that a directory with a watch is kept under.
    fn spelling(&self, dir_key: &String) -> (spelling: Option<String>)
        ensures
            match spelling {
                Some(s) => self.dir_spellings().contains_key(dir_key@) && s@ == self.dir_spellings()[dir_key@],
                None => !self.dir_spellings().contains_key(dir_key@),
            },
    {
        proof {
            use_type_invariant(self);
            lemma_spellings_of(self.files@);
        }
        let n = self.files.len();
        let mut i: usize = 0;
        while i < n
            invariant
                n == self.files@.len(),
                i <= n,
                forall|j: int| 0 <= j < i ==> (#[trigger] self.files@[j]).dir_key@ != dir_key@,
                forall|j: int|
                    0 <= j < n ==> #[trigger] spellings_of(self.files@).contains_key(self.files@[j].dir_key@)
                        && spellings_of(self.files@)[self.files@[j].dir_key@] == self.files@[j].dir@,
            decreases n - i,
        {
            if self.files[i].dir_key == *dir_key {
                return Some(self.files[i].dir.clone());
            }
            i = i + 1;
        }
        proof {
            if spellings_of(self.files@).contains_key(dir_key@) {
                let j = choose|j: int| has_dir_at(self.files@, dir_key@, j);
                assert(self.files@[j].dir_key@ == dir_key@);
            }
        }
        None
    }

    /// Whether the directory with identity `dir_key` has a watch, that is,
    /// whether one of its files is tracked.
    pub fn watches_key(&self, dir_key: &String) -> (watched: bool)
        ensures
            watched == watches_dir(self@, dir_key@),
    {
        proof {
            use_type_invariant(self);
            lemma_watched_iff_spelled(self.files@);
        }
        self.spelling(dir_key).is_some()
    }

    /// Whether the directory `dir` has a watch, that is, whether one of its
    /// files is tracked.
    pub fn watches(&self, dir: &String) -> (watched: bool)
        ensures
            watched == watches_dir(self@, path_identity(dir@)),
    {
        let dir_key = identity_of(dir.as_str());
        self.watches_key(&dir_key)
    }

    /// Start tracking the file `name` of the directory with identity
    /// `dir_key`, unless it is tracked already (its state is then kept). A
    /// directory without a watch is kept under the spelling `dir` from now on.
    pub fn track_in(&mut self, dir: String, dir_key: String, name: String)
        ensures
            final(self)@ == (if old(self)@.contains_key((dir_key@, name@)) {
                old(self)@
            } else {
                old(self)@.insert((dir_key@, name@), FileWatchState::initial())
            }),
            final(self).dir_spellings() == (if watches_dir(old(self)@, dir_key@) {
                old(self).dir_spellings()
            } else {
                old(self).dir_spellings().insert(dir_key@, dir@)
            }),
            final(self).dirs_follow_files(),
    {
        proof {
            use_type_invariant(&*self);
            lemma_tracked_of(self.files@);
            lemma_spellings_of(self.files@);
            lemma_watched_iff_spelled(self.files@);
        }
        match self.position(&dir_key, &name) {
            Some(i) => {
                assert(tracked_of(self.files@).contains_key(key_of(self.files@[i as int])));
                return;
            },
            None => {},
        }
        let spelled = match self.spelling(&dir_key) {
            Some(s) => s,
            None => dir,
        };
        let file = TrackedFile { dir: spelled, dir_key, name, state: FileWatchState::new() };
        let mut files = Vec::new();
        std::mem::swap(&mut files, &mut self.files);
        proof {
            lemma_push(files@, file);
            lemma_watched_iff_spelled(files@.push(file));
        }
        files.push(file);
        self.files = files;
    }

    /// Start tracking the file `name` in `dir`, unless it is tracked already
    /// (its state is then kept). A directory without a watch is kept under
    /// this spelling from now on.
    pub fn track(&mut self, dir: String, name: String)
        ensures
            final(self)@ == (if old(self)@.contains_key((path_identity(dir@), name@)) {
                old(self)@
            } else {
                old(self)@.insert((path_identity(dir@), name@), FileWatchState::initial())
            }),
            final(self).dir_spellings() == (if watches_dir(old(self)@, path_identity(dir@)) {
                old(self).dir_spellings()
            } else {
                old(self).dir_spellings().insert(path_identity(dir@), dir@)
            }),
            final(self).dirs_follow_files(),
    {
        let dir_key = identity_of(dir.as_str());
        self.track_in(dir, dir_key, name);
    }

    /// Start tracking the file `name` of the directory `dir`, whose identity
    /// is `dir_key`. When the directory has no watch yet, nothing changes and
    /// the caller is asked to create one first.
    pub fn watch_in(&mut self, dir: String, dir_key: String, name: String) -> (plan: WatchPlan)
        ensures
            final(self).dirs_follow_files(),
            if watches_dir(old(self)@, dir_key@) {
                &&& plan is Added
                &&& final(self)@ == (if old(self)@.contains_key((dir_key@, name@)) {
                    old(self)@
                } else {
                    old(self)@.insert((dir_key@, name@), FileWatchState::initial())
                })
                &&& final(self).dir_spellings() == old(self).dir_spellings()
            } else {
                &&& plan matches WatchPlan::WatchDir { dir: d, name: n }
                &&& d@ == dir@ && n@ == name@
                &&& final(self)@ == old(self)@
                &&& final(self).dir_spellings() == old(self).dir_spellings()
            },
    {
        proof {
            use_type_invariant(&*self);
            lemma_watched_iff_spelled(self.files@);
        }
        if self.watches_key(&dir_key) {
            self.track_in(dir, dir_key, name);
            WatchPlan::Added
        } else {
            WatchPlan::WatchDir { dir, name }
        }
    }

    /// Start tracking `path` for Live Reload. When its directory has no watch
    /// yet, nothing changes and the caller is asked to create one first.
    pub fn watch(&mut self, path: &str) -> (plan: WatchPlan)
        ensures
            final(self).dirs_follow_files(),
            match split_path(path@) {
                None => {
                    &&& plan is Ignored
                    &&& final(self)@ == old(self)@
                    &&& final(self).dir_spellings() == old(self).dir_spellings()
                },
                Some((dir, name)) => if watches_dir(old(self)@, path_identity(dir)) {
                    &&& plan is Added
                    &&& final(self)@ == (if old(self)@.contains_key((path_identity(dir), name)) {
                        old(self)@
                    } else {
                        old(self)@.insert((path_identity(dir), name), FileWatchState::initial())
                    })
                    &&& final(self).dir_spellings() == old(self).dir_spellings()
                } else {
                    &&& plan matches WatchPlan::WatchDir { dir: d, name: n }
                    &&& d@ == dir && n@ == name
                    &&& final(self)@ == old(self)@
                    &&& final(self).dir_spellings() == old(self).dir_spellings()
                },
            },
    {
        proof {
            use_type_invariant(&*self);
            lemma_watched_iff_spelled(self.files@);
        }
        let (dir, name) = match split_dir_name(path) {
            Some(split) => split,
            None => {
                return WatchPlan::Ignored;
            },
        };
        let dir_key = identity_of(dir.as_str());
        self.watch_in(dir, dir_key, name)
    }

    /// Stop tracking the file `name` of the directory with identity
    /// `dir_key`. Returns the directory, as it is spelled here, whose watch
    /// is to be dropped once no tracked file remains in it.
    pub fn unwatch_in(&mut self, dir_key: &String, name: &String) -> (dropped: Option<String>)
        ensures
            final(self).dirs_follow_files(),
            final(self)@ == old(self)@.remove((dir_key@, name@)),
            dropped is Some <==> watches_dir(old(self)@, dir_key@) && !watches_dir(final(self)@, dir_key@),
            dropped matches Some(d) ==> d@ == old(self).dir_spellings()[dir_key@],
            final(self).dir_spellings() == (if dropped is Some {
                old(self).dir_spellings().remove(dir_key@)
            } else {
                old(self).dir_spellings()
            }),
    {
        let ghost k = (dir_key@, name@);
        let ghost before = self.files@;
        proof {
            use_type_invariant(&*self);
            lemma_watched_iff_spelled(before);
            lemma_tracked_of(before);
        }
        match self.position(dir_key, name) {
            None => {
                assert(self@ =~= self@.remove(k));
                None
            },
            Some(i) => {
                let mut files = Vec::new();
                std::mem::swap(&mut files, &mut self.files);
                proof {
                    lemma_remove(before, i as int);
                    lemma_watched_iff_spelled(before.remove(i as int));
                }
                let removed = files.remove(i);
                self.files = files;
                if self.spelling(dir_key).is_some() {
                    None
                } else {
                    Some(removed.dir)
                }
            },
        }
    }

    /// Stop tracking `path`. Returns the directory, as it is spelled here,
    /// whose watch is to be dropped once no tracked file remains in it.
    pub fn unwatch(&mut self, path: &str) -> (dropped: Option<String>)
        ensures
            final(self).dirs_follow_files(),
            match split_path(path@) {
                None => {
                    &&& dropped is None
                    &&& final(self)@ == old(self)@
                    &&& final(self).dir_spellings() == old(self).dir_spellings()
                },
                Some((dir, name)) => {
                    &&& final(self)@ == old(self)@.remove((path_identity(dir), name))
                    &&& (dropped is Some <==> watches_dir(old(self)@, path_identity(dir))
                        && !watches_dir(final(self)@, path_identity(dir)))
                    &&& dropped matches Some(d) ==> d@ == old(self).dir_spellings()[path_identity(dir)]
                    &&& final(self).dir_spellings() == (if dropped is Some {
                        old(self).dir_spellings().remove(path_identity(dir))
                    } else {
                        old(self).dir_spellings()
                    })
                },
            },
    {
        proof {
            use_type_invariant(&*self);
            lemma_watched_iff_spelled(self.files@);
        }
        let (dir, name) = match split_dir_name(path) {
            Some(split) => split,
            None => {
                return None;
            },
        };
        let dir_key = identity_of(dir.as_str());
        self.unwatch_in(&dir_key, &name)
    }

    /// Resolve every tracked file's pending removal against `now`, for the
    /// ticker.
    pub fn collect_tick_changes(&mut self, now: Timestamp) -> (changes: Vec<PathChange>)
        ensures
            final(self)@.dom() == old(self)@.dom(),
            forall|k: FileKey| #[trigger]
                old(self)@.contains_key(k) ==> final(self)@[k] == old(self)@[k].tick_step(
                    now,
                    grace(),
                ).0,
            final(self).dir_spellings() == old(self).dir_spellings(),
            final(self).dirs_follow_files(),
            reports(changes@, old(self)@, old(self).dir_spellings(), tick_effect(now)),
    {
        proof {
            use_type_invariant(&*self);
        }
        let mut files = Vec::new();
        std::mem::swap(&mut files, &mut self.files);
        let ghost before = files@;
        let ghost effect = tick_effect(now);
        let n = files.len();
        let mut changes: Vec<PathChange> = Vec::new();
        let mut i: usize = 0;
        proof {
            lemma_progress_start(before, effect);
        }
        while i < n
            invariant
                n == before.len(),
                files_wf(before),
                effect == tick_effect(now),
                progress(before, files@, changes@, i as int, effect),
            decreases n - i,
        {
            let ghost files_then = files@;
            let ghost changes_then = changes@;
            let change = files[i].state.on_tick(now, Span { nanos: GRACE_NANOS });
            match change {
                Some(kind) => {
                    let dir = files[i].dir.clone();
                    let dir_key = files[i].dir_key.clone();
                    let name = files[i].name.clone();
                    changes.push(PathChange { dir, dir_key, name, kind });
                },
                None => {},
            }
            proof {
                lemma_progress_step(before, files_then, changes_then, i as int, effect, files@, changes@);
            }
            i = i + 1;
        }
        proof {
            lemma_progress_done(before, files@, changes@, effect);
            lemma_watched_iff_spelled(files@);
        }
        self.files = files;
        changes
    }

    /// Feed a raw event, of kind `kind` on entries with the file names
    /// `names`, from the watch of the directory with identity `dir_key` to
    /// every file tracked under it.
    pub fn collect_named_event_changes(
        &mut self,
        dir_key: &String,
        kind: EventKind,
        names: &Vec<Option<String>>,
        now: Timestamp,
    ) -> (changes: Vec<PathChange>)
        ensures
            final(self)@.dom() == old(self)@.dom(),
            forall|k: FileKey| #[trigger]
                old(self)@.contains_key(k) ==> final(self)@[k] == named_event_effect(dir_key@, kind, names.deep_view(), now)(
                    k,
                    old(self)@[k],
                ).0,
            final(self).dir_spellings() == old(self).dir_spellings(),
            final(self).dirs_follow_files(),
            reports(changes@, old(self)@, old(self).dir_spellings(), named_event_effect(dir_key@, kind, names.deep_view(), now)),
    {
        proof {
            use_type_invariant(&*self);
        }
        let mut files = Vec::new();
        std::mem::swap(&mut files, &mut self.files);
        let ghost before = files@;
        let ghost effect = named_event_effect(dir_key@, kind, names.deep_view(), now);
        let n = files.len();
        let mut changes: Vec<PathChange> = Vec::new();
        let mut i: usize = 0;
        proof {
            lemma_progress_start(before, effect);
        }
        while i < n
            invariant
                n == before.len(),
                files_wf(before),
                effect == named_event_effect(dir_key@, kind, names.deep_view(), now),
                progress(before, files@, changes@, i as int, effect),
            decreases n - i,
        {
            let ghost files_then = files@;
            let ghost changes_then = changes@;
            let mut change: Option<ChangeKind> = None;
            if files[i].dir_key == *dir_key {
                match raw_event_from_names(kind, names, files[i].name.as_str()) {
                    Some(raw) => {
                        change = files[i].state.on_event(raw, now);
                    },
                    None => {},
                }
            }
            match change {
                Some(kind) => {
                    let dir = files[i].dir.clone();
                    let dir_key = files[i].dir_key.clone();
                    let name = files[i].name.clone();
                    changes.push(PathChange { dir, dir_key, name, kind });
                },
                None => {},
            }
            proof {
                lemma_progress_step(before, files_then, changes_then, i as int, effect, files@, changes@);
            }
            i = i + 1;
        }
        proof {
            lemma_progress_done(before, files@, changes@, effect);
            lemma_watched_iff_spelled(files@);
        }
        self.files = files;
        changes
    }

    /// Feed a raw event from the watch of `dir` to every file tracked under
    /// `dir`, for the watcher callback.
    pub fn collect_event_changes(&mut self, dir: &String, event: &FsEvent, now: Timestamp) -> (changes: Vec<PathChange>)
        ensures
            final(self)@.dom() == old(self)@.dom(),
            forall|k: FileKey| #[trigger]
                old(self)@.contains_key(k) ==> final(self)@[k] == event_effect(path_identity(dir@), *event, now)(
                    k,
                    old(self)@[k],
                ).0,
            final(self).dir_spellings() == old(self).dir_spellings(),
            final(self).dirs_follow_files(),
            reports(changes@, old(self)@, old(self).dir_spellings(), event_effect(path_identity(dir@), *event, now)),
    {
        let dir_key = identity_of(dir.as_str());
        let names = file_names(event);
        self.collect_named_event_changes(&dir_key, event.kind, &names, now)
    }
}

/// Tracking the first file of a directory, then untracking it, gives back
/// what was tracked before, and the directory watch is dropped again.
pub proof fn law_untracking_last_file_drops_dir_watch(
    files: Map<FileKey, FileWatchState>,
    dir: Seq<char>,
    name: Seq<char>,
)
    requires
        !watches_dir(files, dir),
    ensures
        watches_dir(files.insert((dir, name), FileWatchState::initial()), dir),
        files.insert((dir, name), FileWatchState::initial()).remove((dir, name)) == files,
        !watches_dir(files.insert((dir, name), FileWatchState::initial()).remove((dir, name)), dir),
{
    let added = files.insert((dir, name), FileWatchState::initial());
    assert(added.contains_key((dir, name)));
    assert(!files.contains_key((dir, name)));
    assert(added.remove((dir, name)) =~= files);
}

/// A directory watch stays while another file of the directory is still
/// tracked.
pub proof fn law_dir_watch_kept_while_files_remain(
    files: Map<FileKey, FileWatchState>,
    dir: Seq<char>,
    name: Seq<char>,
    other: Seq<char>,
)
    requires
        files.contains_key((dir, other)),
        name != other,
    ensures
        watches_dir(files, dir),
        watches_dir(files.remove((dir, name)), dir),
{
    assert(files.remove((dir, name)).contains_key((dir, other)));
}

/// A path is split exactly when it has both a parent and a file name, and
/// then into those two, whatever characters they hold.
pub proof fn law_split_path(path: Seq<char>)
    ensures
        split_path(path) is Some <==> (path_parent(path) is Some && path_file_name(path) is Some),
        split_path(path) is Some ==> split_path(path).unwrap() == (
            path_parent(path).unwrap(),
            path_file_name(path).unwrap(),
        ),
{
}

/// A tick reports a tracked file Detached exactly when its removal has been
/// pending for the whole grace period of 300 ms, and then marks it Detached
/// with nothing pending; otherwise the file is left as it is and nothing is
/// reported. Every file is treated alike, whatever its name or directory.
pub proof fn law_tick_effect(now: Timestamp, key: FileKey, state: FileWatchState)
    ensures
        (state.pending_since() is Some && elapsed(state.pending_since().unwrap(), now) >= 300_000_000)
            ==> {
            &&& tick_effect(now)(key, state).1 == Some(ChangeKind::Detached)
            &&& tick_effect(now)(key, state).0.is_detached()
            &&& tick_effect(now)(key, state).0.pending_since() is None
        },
        !(state.pending_since() is Some && elapsed(state.pending_since().unwrap(), now) >= 300_000_000)
            ==> tick_effect(now)(key, state) == (state, None::<ChangeKind>),
{
    state.lemma_tick_step(now, grace());
}

/// What a raw event from the watch of `dir`, on entries with the file names
/// `names`, does to a tracked file. A file of another directory, or whose
/// name is not among `names`, is left as it is and reports nothing. For a
/// file it concerns: a creation, a rename onto the name or any other
/// modification but a rename away clears a pending removal and the Detached
/// marker and reports Reload (Reattached for a Detached file); a removal or a
/// rename away is held pending from now, keeps the marker and reports
/// nothing; an access or an unknown kind changes nothing.
pub proof fn law_event_effect(
    dir: Seq<char>,
    kind: EventKind,
    names: Seq<Option<Seq<char>>>,
    now: Timestamp,
    key: FileKey,
    state: FileWatchState,
)
    ensures
        !(key.0 == dir && (exists|i: int| 0 <= i < names.len() && names[i] == Some(key.1))) ==> named_event_effect(
            dir,
            kind,
            names,
            now,
        )(key, state) == (state, None::<ChangeKind>),
        (key.0 == dir && (exists|i: int| 0 <= i < names.len() && names[i] == Some(key.1))) ==> {
            &&& (kind == EventKind::Create || (kind is Modify && kind != EventKind::Modify(
                ModifyKind::Name(RenameMode::From),
            ))) ==> {
                &&& named_event_effect(dir, kind, names, now)(key, state).0.pending_since() is None
                &&& !named_event_effect(dir, kind, names, now)(key, state).0.is_detached()
                &&& named_event_effect(dir, kind, names, now)(key, state).1 == Some(
                    if state.is_detached() { ChangeKind::Reattached } else { ChangeKind::Reload },
                )
            }
            &&& (kind == EventKind::Remove || kind == EventKind::Modify(ModifyKind::Name(RenameMode::From)))
                ==> {
                &&& named_event_effect(dir, kind, names, now)(key, state).0.pending_since() == Some(now)
                &&& named_event_effect(dir, kind, names, now)(key, state).0.is_detached() == state.is_detached()
                &&& named_event_effect(dir, kind, names, now)(key, state).1 is None
            }
            &&& (kind == EventKind::Access || kind == EventKind::Any || kind == EventKind::Other)
                ==> named_event_effect(dir, kind, names, now)(key, state) == (state, None::<ChangeKind>)
        },
{
    law_raw_event_named(kind, names, key.1);
    state.lemma_event_step(RawKind::Created, now);
    state.lemma_event_step(RawKind::Modified, now);
    state.lemma_event_step(RawKind::Removed, now);
}

/// What a raw event from the watch of `dir` does to a tracked file is what an
/// event of its kind on the file names of its paths does.
pub proof fn law_event_effect_of_paths(dir: Seq<char>, event: FsEvent, now: Timestamp, key: FileKey, state: FileWatchState)
    ensures
        event_effect(dir, event, now)(key, state) == named_event_effect(dir, event.kind, event_file_names(event), now)(
            key,
            state,
        ),
{
}

/// A removal followed by a save of the same file (an atomic save, or a
/// rewrite right after a delete) reports the save and leaves the file
/// attached with nothing pending, so no later tick reports it Detached,
/// whatever the times.
pub proof fn law_removal_then_save_is_not_detached(
    dir: Seq<char>,
    removal_names: Seq<Option<Seq<char>>>,
    removed_at: Timestamp,
    save_kind: EventKind,
    save_names: Seq<Option<Seq<char>>>,
    saved_at: Timestamp,
    now: Timestamp,
    key: FileKey,
    state: FileWatchState,
)
    requires
        key.0 == dir,
        exists|i: int| 0 <= i < removal_names.len() && removal_names[i] == Some(key.1),
        exists|i: int| 0 <= i < save_names.len() && save_names[i] == Some(key.1),
        save_kind == EventKind::Create || (save_kind is Modify && save_kind != EventKind::Modify(
            ModifyKind::Name(RenameMode::From),
        )),
    ensures
        named_event_effect(dir, EventKind::Remove, removal_names, removed_at)(key, state).1 is None,
        named_event_effect(dir, save_kind, save_names, saved_at)(
            key,
            named_event_effect(dir, EventKind::Remove, removal_names, removed_at)(key, state).0,
        ).1 == Some(if state.is_detached() { ChangeKind::Reattached } else { ChangeKind::Reload }),
        tick_effect(now)(
            key,
            named_event_effect(dir, save_kind, save_names, saved_at)(
                key,
                named_event_effect(dir, EventKind::Remove, removal_names, removed_at)(key, state).0,
            ).0,
        ).1 is None,
{
    let removed = named_event_effect(dir, EventKind::Remove, removal_names, removed_at)(key, state);
    law_event_effect(dir, EventKind::Remove, removal_names, removed_at, key, state);
    law_event_effect(dir, save_kind, save_names, saved_at, key, removed.0);
    let saved = named_event_effect(dir, save_kind, save_names, saved_at)(key, removed.0);
    law_tick_effect(now, key, saved.0);
}

/// What the changes of a collection report: every tracked file for which
/// the effect reports a change is listed once with that change, under its
/// directory's spelling, and nothing else is listed.
pub proof fn law_reports(
    out: Seq<PathChange>,
    before: Map<FileKey, FileWatchState>,
    spellings: Map<Seq<char>, Seq<char>>,
    effect: FileEffect,
    key: FileKey,
    change: ChangeKind,
)
    requires
        reports(out, before, spellings, effect),
    ensures
        before.contains_key(key) && effect(key, before[key]).1 == Some(change) ==> exists|j: int|
            0 <= j < out.len() && out[j].dir_key@ == key.0 && out[j].name@ == key.1 && out[j].kind == change
                && out[j].dir@ == spellings[key.0],
        forall|j: int|
            0 <= j < out.len() ==> before.contains_key((out[j].dir_key@, out[j].name@)) && effect(
                (out[j].dir_key@, out[j].name@),
                before[(out[j].dir_key@, out[j].name@)],
            ).1 == Some(#[trigger] out[j].kind),
        forall|a: int, b: int|
            0 <= a < b < out.len() ==> (#[trigger] out[a].dir_key@, out[a].name@) != (#[trigger] out[b].dir_key@, out[b].name@),
{
    if before.contains_key(key) && effect(key, before[key]).1 == Some(change) {
        let j = choose|j: int| 0 <= j < out.len() && (#[trigger] out[j].key()) == key;
        assert(out[j].key() == key);
    }
    assert forall|j: int| 0 <= j < out.len() implies before.contains_key((out[j].dir_key@, out[j].name@))
        && effect((out[j].dir_key@, out[j].name@), before[(out[j].dir_key@, out[j].name@)]).1 == Some(
        #[trigger] out[j].kind,
    ) by {
        assert(out[j].key() == (out[j].dir_key@, out[j].name@));
    }
    assert forall|a: int, b: int| 0 <= a < b < out.len() implies (#[trigger] out[a].dir_key@, out[a].name@) != (
        #[trigger] out[b].dir_key@,
        out[b].name@,
    ) by {
        assert(out[a].key() != out[b].key());
    }
}

/// The names under which the frontend knows the three changes.
pub proof fn law_change_kind_names()
    ensures
        change_kind_name(ChangeKind::Reload) == "reload"@,
        change_kind_name(ChangeKind::Reattached) == "reattached"@,
        change_kind_name(ChangeKind::Detached) == "detached"@,
{
}

/// A directory has a watch exactly when some file of it is tracked.
pub proof fn law_watches_dir(files: Map<FileKey, FileWatchState>, dir: Seq<char>, name: Seq<char>)
    ensures
        files.contains_key((dir, name)) ==> watches_dir(files, dir),
        watches_dir(files, dir) ==> exists|n: Seq<char>| files.contains_key((dir, n)),
        watches_dir(files.insert((dir, name), FileWatchState::initial()), dir),
        !watches_dir(Map::<FileKey, FileWatchState>::empty(), dir),
{
    assert(files.insert((dir, name), FileWatchState::initial()).contains_key((dir, name)));
}

/// A registry that keeps its directories in step with its files has a
/// spelling for a directory exactly when one of its files is tracked.
pub proof fn law_dirs_follow_files(registry: &WatchRegistry, dir: Seq<char>)
    requires
        registry.dirs_follow_files(),
    ensures
        registry.dir_spellings().contains_key(dir) <==> exists|n: Seq<char>| registry@.contains_key((dir, n)),
{
    assert(registry.dir_spellings().contains_key(dir) == watches_dir(registry@, dir));
}

/// The grace period is 300 ms.
pub proof fn law_grace()
    ensures
        grace().nanos == 300_000_000,
        GRACE_NANOS == 300_000_000,
{
}

} // verus!
