use vstd::prelude::*;

use crate::paths::{file_name_of, path_file_name};

verus! {

/// A filesystem event, reduced to the three shapes we care about for a single
/// tracked filename.
#[derive(Debug, Clone, Copy, PartialEq, Eq, Structural)]
pub enum RawKind {
    Created,
    Modified,
    Removed,
}

/// The semantic outcome to emit to the frontend for a tracked file.
#[derive(Debug, Clone, Copy, PartialEq, Eq, Structural)]
pub enum ChangeKind {
    Reload,
    Detached,
    Reattached,
}

/// A point on a monotonic clock, in nanoseconds from an origin that the
/// caller fixes once.
#[derive(Debug, Clone, Copy, PartialEq, Eq, Structural)]
pub struct Timestamp {
    pub nanos: u64,
}

/// A length of time, in nanoseconds.
#[derive(Debug, Clone, Copy, PartialEq, Eq, Structural)]
pub struct Span {
    pub nanos: u64,
}

/// Time from `earlier` to `later`; zero when `later` is not after `earlier`
/// (the clock never runs backwards, but readings may arrive out of order).
pub open spec fn elapsed(earlier: Timestamp, later: Timestamp) -> nat {
    if later.nanos >= earlier.nanos {
        (later.nanos - earlier.nanos) as nat
    } else {
        0
    }
}

/// Per-file state used to turn a stream of raw directory events into Live
/// Reload / Detached / Reattached. The parent directory is watched rather than
/// the file itself, so an atomic save (write a temporary file, then rename it
/// over the original) must resolve to Reload rather than a Detached /
/// Reattached flicker.
#[derive(Debug, Clone, Copy)]
pub struct FileWatchState {
    detached: bool,
    pending_removal_at: Option<Timestamp>,
}

impl FileWatchState {
    /// Whether the file is Detached: its removal was confirmed and no file has
    /// reappeared at its path since.
    pub closed spec fn is_detached(self) -> bool {
        self.detached
    }

    /// When the removal that is waiting for its grace period was seen, if any.
    pub closed spec fn pending_since(self) -> Option<Timestamp> {
        self.pending_removal_at
    }

    /// A freshly tracked file: attached, nothing pending.
    pub closed spec fn initial() -> FileWatchState {
        FileWatchState { detached: false, pending_removal_at: None }
    }

    /// The state after a raw event on this file, and what it emits.
    pub closed spec fn event_step(self, kind: RawKind, now: Timestamp) -> (FileWatchState, Option<ChangeKind>) {
        match kind {
            RawKind::Removed => (FileWatchState { detached: self.detached, pending_removal_at: Some(now) }, None),
            _ => (
                FileWatchState { detached: false, pending_removal_at: None },
                Some(if self.detached { ChangeKind::Reattached } else { ChangeKind::Reload }),
            ),
        }
    }

    /// The state after a periodic tick at `now`, and what it emits.
    pub closed spec fn tick_step(self, now: Timestamp, grace: Span) -> (FileWatchState, Option<ChangeKind>) {
        match self.pending_removal_at {
            None => (self, None),
            Some(removed_at) => if elapsed(removed_at, now) < grace.nanos {
                (self, None)
            } else {
                (FileWatchState { detached: true, pending_removal_at: None }, Some(ChangeKind::Detached))
            },
        }
    }

    /// What a raw event does to a state and what it emits, told by the two
    /// observers: a removal is held pending and emits nothing; anything else
    /// clears it and emits Reload, or Reattached for a Detached file. An
    /// event never emits Detached.
    pub proof fn lemma_event_step(self, kind: RawKind, now: Timestamp)
        ensures
            self.event_step(kind, now).1 == (if kind == RawKind::Removed {
                None
            } else if self.is_detached() {
                Some(ChangeKind::Reattached)
            } else {
                Some(ChangeKind::Reload)
            }),
            kind == RawKind::Removed ==> {
                &&& self.event_step(kind, now).0.pending_since() == Some(now)
                &&& self.event_step(kind, now).0.is_detached() == self.is_detached()
            },
            kind != RawKind::Removed ==> {
                &&& self.event_step(kind, now).0.pending_since() is None
                &&& !self.event_step(kind, now).0.is_detached()
            },
    {
    }

    /// What a tick does to a state and what it emits, told by the two
    /// observers: only a removal pending for at least `grace` changes
    /// anything, and then the file becomes Detached and Detached is emitted.
    pub proof fn lemma_tick_step(self, now: Timestamp, grace: Span)
        ensures
            match self.pending_since() {
                None => self.tick_step(now, grace) == (self, None::<ChangeKind>),
                Some(removed_at) => if elapsed(removed_at, now) < grace.nanos {
                    self.tick_step(now, grace) == (self, None::<ChangeKind>)
                } else {
                    &&& self.tick_step(now, grace).1 == Some(ChangeKind::Detached)
                    &&& self.tick_step(now, grace).0.is_detached()
                    &&& self.tick_step(now, grace).0.pending_since() is None
                },
            },
            self.tick_step(now, grace).1 is None || self.tick_step(now, grace).1 == Some(
                ChangeKind::Detached,
            ),
    {
    }

    /// A freshly tracked file is attached, with nothing pending.
    pub proof fn lemma_initial()
        ensures
            !Self::initial().is_detached(),
            Self::initial().pending_since() is None,
    {
    }

    /// A state is all that its two observers say.
    pub proof fn lemma_state_ext(a: FileWatchState, b: FileWatchState)
        requires
            a.is_detached() == b.is_detached(),
            a.pending_since() == b.pending_since(),
        ensures
            a == b,
    {
    }

    pub fn new() -> (state: Self)
        ensures
            state == Self::initial(),
            !state.is_detached(),
            state.pending_since() is None,
    {
        FileWatchState { detached: false, pending_removal_at: None }
    }

    /// Handle a raw event for this file's exact name. A `Removed` doesn't
    /// immediately become Detached: it's held pending until `on_tick`
    /// confirms the grace period elapsed with no matching Create/Modify.
    pub fn on_event(&mut self, kind: RawKind, now: Timestamp) -> (change: Option<ChangeKind>)
        ensures
            (*final(self), change) == old(self).event_step(kind, now),
            kind == RawKind::Removed ==> {
                &&& change is None
                &&& final(self).pending_since() == Some(now)
                &&& final(self).is_detached() == old(self).is_detached()
            },
            kind != RawKind::Removed ==> {
                &&& final(self).pending_since() is None
                &&& !final(self).is_detached()
                &&& change == Some(
                    if old(self).is_detached() { ChangeKind::Reattached } else { ChangeKind::Reload },
                )
            },
    {
        match kind {
            RawKind::Removed => {
                self.pending_removal_at = Some(now);
                None
            },
            RawKind::Created | RawKind::Modified => {
                self.pending_removal_at = None;
                let was_detached = self.detached;
                self.detached = false;
                Some(
                    if was_detached {
                        ChangeKind::Reattached
                    } else {
                        ChangeKind::Reload
                    },
                )
            },
        }
    }

    /// Call periodically to resolve a pending removal into a real Detached
    /// once `grace` has elapsed with no matching Create/Modify.
    pub fn on_tick(&mut self, now: Timestamp, grace: Span) -> (change: Option<ChangeKind>)
        ensures
            (*final(self), change) == old(self).tick_step(now, grace),
            match old(self).pending_since() {
                None => change is None && *final(self) == *old(self),
                Some(removed_at) => if elapsed(removed_at, now) < grace.nanos {
                    change is None && *final(self) == *old(self)
                } else {
                    &&& change == Some(ChangeKind::Detached)
                    &&& final(self).is_detached()
                    &&& final(self).pending_since() is None
                },
            },
    {
        let removed_at = match self.pending_removal_at {
            Some(t) => t,
            None => {
                return None;
            },
        };
        if now.nanos.saturating_sub(removed_at.nanos) < grace.nanos {
            return None;
        }
        self.pending_removal_at = None;
        self.detached = true;
        Some(ChangeKind::Detached)
    }
}

impl Default for FileWatchState {
    fn default() -> (state: Self)
        ensures
            state == Self::initial(),
    {
        Self::new()
    }
}

/// How a watched directory's entry changed, as the watcher backend reports
/// it; only the distinctions that decide a `RawKind` are kept.
#[derive(Debug, Clone, Copy, PartialEq, Eq, Structural)]
pub enum EventKind {
    Any,
    Access,
    Create,
    Modify(ModifyKind),
    Remove,
    Other,
}

/// The kind of a modification.
#[derive(Debug, Clone, Copy, PartialEq, Eq, Structural)]
pub enum ModifyKind {
    Any,
    Data,
    Metadata,
    Name(RenameMode),
    Other,
}

/// Which side of a rename an event describes.
#[derive(Debug, Clone, Copy, PartialEq, Eq, Structural)]
pub enum RenameMode {
    Any,
    To,
    From,
    Both,
    Other,
}

/// A raw event from a directory watch: its kind and the paths it concerns.
#[derive(Debug)]
pub struct FsEvent {
    pub kind: EventKind,
    pub paths: Vec<String>,
}

/// The `RawKind` an event kind stands for, if any.
pub open spec fn raw_kind_of(kind: EventKind) -> Option<RawKind> {
    match kind {
        EventKind::Create => Some(RawKind::Created),
        EventKind::Modify(ModifyKind::Name(RenameMode::To)) => Some(RawKind::Created),
        EventKind::Modify(ModifyKind::Name(RenameMode::From)) => Some(RawKind::Removed),
        EventKind::Modify(_) => Some(RawKind::Modified),
        EventKind::Remove => Some(RawKind::Removed),
        _ => None,
    }
}

/// The `RawKind` that an event of this kind means for a file it concerns: a
/// creation or a rename onto the name is Created, a rename away or a removal
/// is Removed, any other modification is Modified, and an access (or an
/// unknown kind) means nothing.
pub fn raw_kind(kind: EventKind) -> (raw: Option<RawKind>)
    ensures
        raw == raw_kind_of(kind),
{
    match kind {
        EventKind::Create => Some(RawKind::Created),
        EventKind::Modify(ModifyKind::Name(RenameMode::To)) => Some(RawKind::Created),
        EventKind::Modify(ModifyKind::Name(RenameMode::From)) => Some(RawKind::Removed),
        EventKind::Modify(_) => Some(RawKind::Modified),
        EventKind::Remove => Some(RawKind::Removed),
        _ => None,
    }
}

/// The file names of an event's paths, in order (`None` for a path that has
/// no file name).
pub open spec fn event_file_names(event: FsEvent) -> Seq<Option<Seq<char>>> {
    Seq::new(event.paths@.len(), |i: int| path_file_name(event.paths@[i]@))
}

/// What an event of kind `kind` on entries with the file names `names` means
/// for the tracked file named `target`: nothing unless one of the names is
/// exactly `target`.
pub open spec fn raw_event_named(kind: EventKind, names: Seq<Option<Seq<char>>>, target: Seq<char>) -> Option<RawKind> {
    if names.contains(Some(target)) {
        raw_kind_of(kind)
    } else {
        None
    }
}

/// Whether one of the event's paths has exactly the file name `target`.
pub open spec fn concerns_target(event: FsEvent, target: Seq<char>) -> bool {
    event_file_names(event).contains(Some(target))
}

/// What a raw event means for the tracked file named `target`.
pub open spec fn raw_event_for(event: FsEvent, target: Seq<char>) -> Option<RawKind> {
    raw_event_named(event.kind, event_file_names(event), target)
}

/// The file names of an event's paths, in order.
pub fn file_names(event: &FsEvent) -> (names: Vec<Option<String>>)
    ensures
        names.deep_view() == event_file_names(*event),
{
    let n = event.paths.len();
    let mut names: Vec<Option<String>> = Vec::new();
    let mut i: usize = 0;
    while i < n
        invariant
            n == event.paths@.len(),
            i <= n,
            names@.len() == i,
            forall|j: int| 0 <= j < i ==> (#[trigger] names@[j]).deep_view() == path_file_name(event.paths@[j]@),
        decreases n - i,
    {
        let name = file_name_of(event.paths[i].as_str());
        names.push(name);
        i = i + 1;
    }
    assert(names.deep_view() =~= event_file_names(*event)) by {
        assert forall|j: int| 0 <= j < n implies #[trigger] names.deep_view()[j] == event_file_names(*event)[j] by {
            assert(names.deep_view()[j] == names@[j].deep_view());
        }
    }
    names
}

/// What an event of kind `kind`, on entries with the file names `names`,
/// means for the tracked file `target_name`.
pub fn raw_event_from_names(kind: EventKind, names: &Vec<Option<String>>, target_name: &str) -> (raw: Option<RawKind>)
    ensures
        raw == raw_event_named(kind, names.deep_view(), target_name@),
{
    broadcast use vstd::string::group_string_axioms;

    let target = target_name.to_string();
    let n = names.len();
    let mut concerns = false;
    let mut i: usize = 0;
    while i < n && !concerns
        invariant
            n == names.deep_view().len(),
            i <= n,
            target@ == target_name@,
            !concerns ==> forall|j: int| 0 <= j < i ==> names.deep_view()[j] != Some(target@),
            concerns ==> names.deep_view().contains(Some(target@)),
        decreases n - i,
    {
        match &names[i] {
            Some(name) => {
                if *name == target {
                    concerns = true;
                    assert(names.deep_view()[i as int] == Some(target@));
                }
            },
            None => {},
        }
        i = i + 1;
    }
    if !concerns {
        return None;
    }
    raw_kind(kind)
}

/// Map a raw event to a `RawKind`, but only if it concerns the exact
/// filename we're tracking (directory watches fire for every entry in the
/// directory).
pub fn notify_event_to_raw(event: &FsEvent, target_name: &str) -> (raw: Option<RawKind>)
    ensures
        raw == raw_event_for(*event, target_name@),
        !concerns_target(*event, target_name@) ==> raw is None,
{
    let names = file_names(event);
    raw_event_from_names(event.kind, &names, target_name)
}

/// An atomic save shows up as a `Removed` followed by a `Created` or
/// `Modified` for the same name. Whatever the times, it surfaces as one Reload
/// (Reattached if the file was Detached before), nothing is emitted for the
/// removal, and no later tick turns it into Detached.
pub proof fn law_atomic_save_is_not_detached(
    state: FileWatchState,
    removed_at: Timestamp,
    kind: RawKind,
    recreated_at: Timestamp,
    now: Timestamp,
    grace: Span,
)
    requires
        kind != RawKind::Removed,
    ensures
        state.event_step(RawKind::Removed, removed_at).1 is None,
        state.event_step(RawKind::Removed, removed_at).0.event_step(kind, recreated_at).1 == Some(
            if state.is_detached() { ChangeKind::Reattached } else { ChangeKind::Reload },
        ),
        state.event_step(RawKind::Removed, removed_at).0.event_step(kind, recreated_at).0.tick_step(
            now,
            grace,
        ).1 is None,
{
}

/// A removal becomes Detached only once its grace period has passed with no
/// `Created` or `Modified` in between: a tick before that emits nothing and
/// keeps the removal pending.
pub proof fn law_detached_only_after_grace(
    state: FileWatchState,
    removed_at: Timestamp,
    now: Timestamp,
    grace: Span,
)
    ensures
        state.event_step(RawKind::Removed, removed_at).0.tick_step(now, grace).1 == (
            if elapsed(removed_at, now) < grace.nanos { None } else { Some(ChangeKind::Detached) }),
        elapsed(removed_at, now) < grace.nanos ==> state.event_step(
            RawKind::Removed,
            removed_at,
        ).0.tick_step(now, grace).0.pending_since() == Some(removed_at),
{
}

/// Detached is reported once per removal: after a tick reports it, every
/// further tick is silent and changes nothing until the next event.
pub proof fn law_detached_reported_once(
    state: FileWatchState,
    now: Timestamp,
    grace: Span,
    later: Timestamp,
    later_grace: Span,
)
    requires
        state.tick_step(now, grace).1 == Some(ChangeKind::Detached),
    ensures
        state.tick_step(now, grace).0.is_detached(),
        state.tick_step(now, grace).0.tick_step(later, later_grace) == (state.tick_step(now, grace).0, None::<ChangeKind>),
{
}

/// A file that reappears at the path of a Detached tab reattaches it: the
/// next `Created` or `Modified` is reported as Reattached and clears the
/// marker.
pub proof fn law_reappearing_file_reattaches(
    state: FileWatchState,
    now: Timestamp,
    grace: Span,
    kind: RawKind,
    at: Timestamp,
)
    requires
        state.tick_step(now, grace).1 == Some(ChangeKind::Detached),
        kind != RawKind::Removed,
    ensures
        state.tick_step(now, grace).0.event_step(kind, at).1 == Some(ChangeKind::Reattached),
        !state.tick_step(now, grace).0.event_step(kind, at).0.is_detached(),
        state.tick_step(now, grace).0.event_step(kind, at).0.pending_since() is None,
{
}

/// One thing that happens to a tracked file: a raw event on its name, or a
/// tick of the ticker.
pub enum WatchStep {
    Event(RawKind, Timestamp),
    Tick(Timestamp),
}

/// When a step happens.
pub open spec fn step_time(step: WatchStep) -> Timestamp {
    match step {
        WatchStep::Event(_, at) => at,
        WatchStep::Tick(at) => at,
    }
}

/// What one step does to a state, and what it emits.
pub open spec fn apply_step(state: FileWatchState, step: WatchStep, grace: Span) -> (
    FileWatchState,
    Option<ChangeKind>,
) {
    match step {
        WatchStep::Event(kind, at) => state.event_step(kind, at),
        WatchStep::Tick(at) => state.tick_step(at, grace),
    }
}

/// The state after a run of steps.
pub open spec fn state_after(state: FileWatchState, steps: Seq<WatchStep>, grace: Span) -> FileWatchState
    decreases steps.len(),
{
    if steps.len() == 0 {
        state
    } else {
        apply_step(state_after(state, steps.drop_last(), grace), steps.last(), grace).0
    }
}

/// What the step `steps[i]` of a run emits.
pub open spec fn emitted_at(state: FileWatchState, steps: Seq<WatchStep>, i: int, grace: Span) -> Option<ChangeKind> {
    apply_step(state_after(state, steps.take(i), grace), steps[i], grace).1
}

/// Whether a step is a `Created` or a `Modified`, the second half of a save.
pub open spec fn is_save(step: WatchStep) -> bool {
    step matches WatchStep::Event(kind, _) && kind != RawKind::Removed
}

/// When the step saw its file removed, if it is a removal.
pub open spec fn removal_time(step: WatchStep) -> Option<Timestamp> {
    match step {
        WatchStep::Event(RawKind::Removed, at) => Some(at),
        _ => None,
    }
}

/// Whether `step` completes, within `grace`, a save whose removal was seen
/// at `removed_at`.
pub open spec fn completes_in_time(step: WatchStep, removed_at: Timestamp, grace: Span) -> bool {
    is_save(step) && step_time(step).nanos - removed_at.nanos < grace.nanos
}

spec fn pending_from_removal(steps: Seq<WatchStep>, n: int, removed_at: Timestamp) -> bool {
    exists|m: int|
        0 <= m < n && steps[m] == WatchStep::Event(RawKind::Removed, removed_at) && (forall|q: int|
            m < q < n ==> !is_save(#[trigger] steps[q]))
}

spec fn quiet_so_far(steps: Seq<WatchStep>, n: int, grace: Span) -> bool {
    let state = state_after(FileWatchState::initial(), steps.take(n), grace);
    &&& !state.is_detached()
    &&& (state.pending_since() matches Some(removed_at) ==> pending_from_removal(steps, n, removed_at))
    &&& forall|i: int|
        0 <= i < n ==> #[trigger] emitted_at(FileWatchState::initial(), steps, i, grace) != Some(
            ChangeKind::Detached,
        ) && emitted_at(FileWatchState::initial(), steps, i, grace) != Some(ChangeKind::Reattached)
}

proof fn lemma_quiet_so_far(steps: Seq<WatchStep>, grace: Span, n: int)
    requires
        0 <= n <= steps.len(),
        forall|i: int, j: int|
            0 <= i <= j < steps.len() ==> step_time(#[trigger] steps[i]).nanos <= step_time(
                #[trigger] steps[j],
            ).nanos,
        forall|i: int|
            0 <= i < steps.len() && (#[trigger] removal_time(steps[i])) is Some ==> exists|j: int|
                i < j < steps.len() && completes_in_time(steps[j], removal_time(steps[i]).unwrap(), grace),
    ensures
        quiet_so_far(steps, n, grace),
    decreases n,
{
    let init = FileWatchState::initial();
    if n == 0 {
        assert(steps.take(0) =~= Seq::<WatchStep>::empty());
        return;
    }
    let p = n - 1;
    lemma_quiet_so_far(steps, grace, p);
    let prefix = steps.take(p);
    assert(steps.take(n).drop_last() =~= prefix);
    assert(steps.take(n).last() == steps[p]);
    let s = state_after(init, prefix, grace);
    let next = apply_step(s, steps[p], grace);
    assert(state_after(init, steps.take(n), grace) == next.0);
    assert(emitted_at(init, steps, p, grace) == next.1);
    match steps[p] {
        WatchStep::Event(kind, at) => {
            if kind == RawKind::Removed {
                assert(pending_from_removal(steps, n, at)) by {
                    assert(steps[p] == WatchStep::Event(RawKind::Removed, at));
                }
            }
        },
        WatchStep::Tick(at) => {
            match s.pending_since() {
                None => {},
                Some(removed_at) => {
                    let m = choose|m: int|
                        0 <= m < p && steps[m] == WatchStep::Event(RawKind::Removed, removed_at) && (
                        forall|q: int| m < q < p ==> !is_save(#[trigger] steps[q]));
                    assert(removal_time(steps[m]) == Some(removed_at));
                    let j = choose|j: int| m < j < steps.len() && completes_in_time(steps[j], removed_at, grace);
                    assert(j > p) by {
                        if j < p {
                            assert(!is_save(steps[j]));
                        }
                        if j == p {
                            assert(!is_save(steps[p]));
                        }
                    }
                    assert(step_time(steps[p]).nanos <= step_time(steps[j]).nanos);
                    assert(step_time(steps[m]).nanos <= step_time(steps[p]).nanos);
                    assert(elapsed(removed_at, at) < grace.nanos);
                    assert(pending_from_removal(steps, n, removed_at)) by {
                        assert forall|q: int| m < q < n implies !is_save(#[trigger] steps[q]) by {
                            if q == p {
                                assert(steps[q] == WatchStep::Tick(at));
                            }
                        }
                    }
                },
            }
        },
    }
    assert forall|i: int| 0 <= i < n implies #[trigger] emitted_at(init, steps, i, grace) != Some(
        ChangeKind::Detached,
    ) && emitted_at(init, steps, i, grace) != Some(ChangeKind::Reattached) by {
        if i < p {
            assert(emitted_at(init, steps, i, grace) != Some(ChangeKind::Detached));
        }
    }
}

/// An atomic save (write a temporary file, then rename it over the
/// original) never flickers: starting from a freshly tracked file, in any
/// run of events and ticks, in time order, in which every removal is
/// followed by a `Created` or `Modified` of the name within the grace
/// period, no tick reports Detached and no event reports Reattached.
pub proof fn law_atomic_saves_never_flicker(steps: Seq<WatchStep>, grace: Span)
    requires
        forall|i: int, j: int|
            0 <= i <= j < steps.len() ==> step_time(#[trigger] steps[i]).nanos <= step_time(
                #[trigger] steps[j],
            ).nanos,
        forall|i: int|
            0 <= i < steps.len() && (#[trigger] removal_time(steps[i])) is Some ==> exists|j: int|
                i < j < steps.len() && completes_in_time(steps[j], removal_time(steps[i]).unwrap(), grace),
    ensures
        forall|i: int|
            0 <= i < steps.len() ==> #[trigger] emitted_at(FileWatchState::initial(), steps, i, grace)
                != Some(ChangeKind::Detached) && emitted_at(FileWatchState::initial(), steps, i, grace)
                != Some(ChangeKind::Reattached),
{
    lemma_quiet_so_far(steps, grace, steps.len() as int);
}

/// Time elapsed between two readings is their difference, and nothing when
/// the later reading is not after the earlier one.
pub proof fn law_elapsed(earlier: Timestamp, later: Timestamp)
    ensures
        earlier.nanos <= later.nanos ==> earlier.nanos + elapsed(earlier, later) == later.nanos,
        later.nanos < earlier.nanos ==> elapsed(earlier, later) == 0,
{
}

/// The file names of an event are those of its paths, one for each, in order.
pub proof fn law_event_file_names(event: FsEvent)
    ensures
        event_file_names(event).len() == event.paths@.len(),
        forall|i: int|
            0 <= i < event.paths@.len() ==> #[trigger] event_file_names(event)[i] == path_file_name(
                event.paths@[i]@,
            ),
{
}

/// An event means something for a tracked file exactly when one of the
/// names it carries is the file's name, and then it means what its kind
/// says: a creation or a rename onto the name is Created, a removal or a
/// rename away is Removed, any other modification is Modified, and an access
/// or an unknown kind means nothing.
pub proof fn law_raw_event_named(kind: EventKind, names: Seq<Option<Seq<char>>>, target: Seq<char>)
    ensures
        (forall|i: int| 0 <= i < names.len() ==> names[i] != Some(target)) ==> raw_event_named(
            kind,
            names,
            target,
        ) is None,
        (exists|i: int| 0 <= i < names.len() && names[i] == Some(target)) ==> {
            &&& kind == EventKind::Create ==> raw_event_named(kind, names, target) == Some(RawKind::Created)
            &&& kind == EventKind::Modify(ModifyKind::Name(RenameMode::To)) ==> raw_event_named(kind, names, target)
                == Some(RawKind::Created)
            &&& kind == EventKind::Remove ==> raw_event_named(kind, names, target) == Some(RawKind::Removed)
            &&& kind == EventKind::Modify(ModifyKind::Name(RenameMode::From)) ==> raw_event_named(kind, names, target)
                == Some(RawKind::Removed)
            &&& (kind is Modify && kind != EventKind::Modify(ModifyKind::Name(RenameMode::To)) && kind
                != EventKind::Modify(ModifyKind::Name(RenameMode::From))) ==> raw_event_named(kind, names, target)
                == Some(RawKind::Modified)
            &&& (kind == EventKind::Access || kind == EventKind::Any || kind == EventKind::Other)
                ==> raw_event_named(kind, names, target) is None
        },
{
    if exists|i: int| 0 <= i < names.len() && names[i] == Some(target) {
        let i = choose|i: int| 0 <= i < names.len() && names[i] == Some(target);
        assert(names.contains(Some(target)));
    } else {
        assert(!names.contains(Some(target)));
    }
}

/// A raw event concerns a tracked file exactly when one of its paths has the
/// file's name, whatever the other paths are and however many there are; it
/// then means what its kind says (see `law_raw_event_named`).
pub proof fn law_raw_event_for(event: FsEvent, target: Seq<char>)
    ensures
        (forall|i: int| 0 <= i < event.paths@.len() ==> path_file_name(#[trigger] event.paths@[i]@) != Some(target))
            ==> raw_event_for(event, target) is None,
        (exists|i: int| 0 <= i < event.paths@.len() && path_file_name(#[trigger] event.paths@[i]@) == Some(target))
            ==> raw_event_for(event, target) == raw_event_named(event.kind, seq![Some(target)], target),
        raw_event_named(event.kind, seq![Some(target)], target) is Some <==> !(event.kind == EventKind::Access
            || event.kind == EventKind::Any || event.kind == EventKind::Other),
{
    let names = event_file_names(event);
    law_raw_event_named(event.kind, seq![Some(target)], target);
    assert(seq![Some(target)][0] == Some(target));
    if exists|i: int| 0 <= i < event.paths@.len() && path_file_name(#[trigger] event.paths@[i]@) == Some(target) {
        let i = choose|i: int| 0 <= i < event.paths@.len() && path_file_name(#[trigger] event.paths@[i]@) == Some(target);
        assert(names[i] == Some(target));
        assert(names.contains(Some(target)));
        assert(seq![Some(target)].contains(Some(target)));
    } else {
        assert forall|i: int| 0 <= i < names.len() implies names[i] != Some(target) by {
            assert(names[i] == path_file_name(event.paths@[i]@));
        }
        assert(!names.contains(Some(target)));
    }
}

/// How a run is played: each step acts on the state the steps before it
/// left, an event as `on_event` and a tick as `on_tick` do, and what a step
/// emits is what it emits on that state.
pub proof fn law_run(state: FileWatchState, steps: Seq<WatchStep>, step: WatchStep, grace: Span, i: int)
    ensures
        state_after(state, Seq::empty(), grace) == state,
        state_after(state, steps.push(step), grace) == apply_step(state_after(state, steps, grace), step, grace).0,
        forall|kind: RawKind, at: Timestamp|
            #[trigger] apply_step(state, WatchStep::Event(kind, at), grace) == state.event_step(kind, at),
        forall|at: Timestamp| #[trigger] apply_step(state, WatchStep::Tick(at), grace) == state.tick_step(at, grace),
        0 <= i < steps.len() ==> emitted_at(state, steps, i, grace) == apply_step(
            state_after(state, steps.take(i), grace),
            steps[i],
            grace,
        ).1,
{
    assert(steps.push(step).drop_last() =~= steps);
}

/// Which steps a run's promise speaks of: a save is a `Created` or
/// `Modified` event, a removal is a `Removed` event seen at its time, and a
/// save completes a removal in time when it comes less than `grace` after it.
pub proof fn law_run_steps(kind: RawKind, at: Timestamp, removed_at: Timestamp, grace: Span)
    ensures
        step_time(WatchStep::Event(kind, at)) == at,
        step_time(WatchStep::Tick(at)) == at,
        is_save(WatchStep::Event(kind, at)) <==> kind != RawKind::Removed,
        !is_save(WatchStep::Tick(at)),
        removal_time(WatchStep::Event(kind, at)) == (if kind == RawKind::Removed { Some(at) } else { None }),
        removal_time(WatchStep::Tick(at)) is None,
        completes_in_time(WatchStep::Event(kind, at), removed_at, grace) <==> (kind != RawKind::Removed && at.nanos
            - removed_at.nanos < grace.nanos),
        !completes_in_time(WatchStep::Tick(at), removed_at, grace),
{
}

} // verus!
