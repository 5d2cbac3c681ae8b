//! The two background tasks, formatting the display and searching it: when one may start, and
//! whether its result is still wanted when it comes. Times are milliseconds on one steady clock.

use vstd::prelude::*;

verus! {

#[derive(Debug, Clone, Copy, PartialEq, Eq, Structural)]
pub enum DisplayPhase {
    Idle,
    Running,
}

/// Owns the lifecycle of the single display-formatting task.
#[derive(Debug)]
pub struct DisplayTaskState {
    revision: u64,
    phase: DisplayPhase,
    full_rebuild: bool,
    last_started: u64,
}

pub struct DisplayTaskView {
    pub revision: u64,
    pub phase: DisplayPhase,
    pub full_rebuild: bool,
    pub last_started: u64,
}

/// The number after a revision; the last one is followed by the first.
pub open spec fn next_revision(revision: u64) -> u64 {
    if revision == u64::MAX {
        0
    } else {
        (revision + 1) as u64
    }
}

/// The time from one moment to another, or none if the other is earlier.
pub open spec fn elapsed(since: u64, now: u64) -> u64 {
    if now >= since {
        (now - since) as u64
    } else {
        0
    }
}

/// A wait that is not over yet.
pub open spec fn time_left(until: u64, now: u64) -> Option<u64> {
    if until > now {
        Some((until - now) as u64)
    } else {
        None
    }
}

impl DisplayTaskView {
    pub open spec fn invalidated(self) -> Self {
        DisplayTaskView { revision: next_revision(self.revision), full_rebuild: true, ..self }
    }

    pub open spec fn rebuild_required(self) -> Self {
        DisplayTaskView { full_rebuild: true, ..self }
    }

    pub open spec fn started(self, now: u64) -> Self {
        DisplayTaskView {
            phase: DisplayPhase::Running,
            full_rebuild: false,
            last_started: now,
            ..self
        }
    }

    /// The result of a run that was started at a revision may be shown.
    pub open spec fn wanted(self, revision: u64, may_apply: bool) -> bool {
        revision == self.revision && may_apply
    }

    pub open spec fn finished(self, revision: u64, may_apply: bool) -> Self {
        DisplayTaskView {
            phase: DisplayPhase::Idle,
            full_rebuild: self.full_rebuild || !self.wanted(revision, may_apply),
            ..self
        }
    }

    pub open spec fn applied(self, now: u64) -> Self {
        DisplayTaskView { full_rebuild: false, last_started: now, ..self }
    }
}

impl DisplayTaskState {
    pub closed spec fn inner(self) -> DisplayTaskView {
        DisplayTaskView {
            revision: self.revision,
            phase: self.phase,
            full_rebuild: self.full_rebuild,
            last_started: self.last_started,
        }
    }

    pub fn new(debounce: u64, now: u64) -> (state: Self)
        ensures
            state.inner() == (DisplayTaskView {
                revision: 0,
                phase: DisplayPhase::Idle,
                full_rebuild: true,
                last_started: elapsed(debounce, now),
            }),
    {
        DisplayTaskState {
            revision: 0,
            phase: DisplayPhase::Idle,
            full_rebuild: true,
            last_started: now.saturating_sub(debounce),
        }
    }

    pub fn is_running(&self) -> (running: bool)
        ensures
            running == (self.inner().phase == DisplayPhase::Running),
    {
        self.phase == DisplayPhase::Running
    }

    pub fn needs_full_rebuild(&self) -> (full: bool)
        ensures
            full == self.inner().full_rebuild,
    {
        self.full_rebuild
    }

    /// How long the next run has to wait. A full rebuild does not wait.
    pub fn debounce_remaining(&self, debounce: u64, now: u64) -> (remaining: Option<u64>)
        ensures
            remaining == if self.inner().full_rebuild {
                None
            } else {
                time_left(debounce, elapsed(self.inner().last_started, now))
            },
    {
        let waited: u64 = now.saturating_sub(self.last_started);
        if self.full_rebuild || debounce <= waited {
            None
        } else {
            Some(debounce - waited)
        }
    }

    pub fn invalidate(&mut self)
        ensures
            final(self).inner() == old(self).inner().invalidated(),
    {
        self.revision = self.revision.wrapping_add(1);
        self.full_rebuild = true;
    }

    pub fn require_full_rebuild(&mut self)
        ensures
            final(self).inner() == old(self).inner().rebuild_required(),
    {
        self.full_rebuild = true;
    }

    /// Starts a run, and tells the revision that its result belongs to.
    pub fn start(&mut self, now: u64) -> (revision: u64)
        ensures
            final(self).inner() == old(self).inner().started(now),
            revision == old(self).inner().revision,
    {
        self.phase = DisplayPhase::Running;
        self.full_rebuild = false;
        self.last_started = now;
        self.revision
    }

    /// Finishes the active run and reports whether its result still belongs to the display.
    pub fn finish(&mut self, revision: u64, may_apply: bool) -> (current: bool)
        ensures
            final(self).inner() == old(self).inner().finished(revision, may_apply),
            current == old(self).inner().wanted(revision, may_apply),
    {
        self.phase = DisplayPhase::Idle;
        let current = revision == self.revision && may_apply;
        if !current {
            self.full_rebuild = true;
        }
        current
    }

    pub fn mark_applied(&mut self, now: u64)
        ensures
            final(self).inner() == old(self).inner().applied(now),
    {
        self.full_rebuild = false;
        self.last_started = now;
    }
}

/// What can happen to the display while a run is under way.
pub enum DisplayEvent {
    Invalidate,
    RequireFullRebuild,
    MarkApplied(u64),
}

pub open spec fn after_display_events(
    state: DisplayTaskView,
    events: Seq<DisplayEvent>,
) -> DisplayTaskView
    decreases events.len(),
{
    if events.len() == 0 {
        state
    } else {
        let before = after_display_events(state, events.drop_last());
        match events.last() {
            DisplayEvent::Invalidate => before.invalidated(),
            DisplayEvent::RequireFullRebuild => before.rebuild_required(),
            DisplayEvent::MarkApplied(now) => before.applied(now),
        }
    }
}

pub open spec fn invalidations(events: Seq<DisplayEvent>) -> nat
    decreases events.len(),
{
    if events.len() == 0 {
        0
    } else {
        invalidations(events.drop_last()) + if events.last() is Invalidate {
            1nat
        } else {
            0
        }
    }
}

proof fn revision_counts_invalidations(state: DisplayTaskView, events: Seq<DisplayEvent>)
    ensures
        after_display_events(state, events).revision == (state.revision + invalidations(events))
            % 0x1_0000_0000_0000_0000,
    decreases events.len(),
{
    if events.len() > 0 {
        revision_counts_invalidations(state, events.drop_last());
    }
}

/// A result is shown if and only if the display was not invalidated while it was made. A display
/// that was invalidated, or that a result was kept from, is built anew. (Revisions repeat after
/// 2^64 invalidations.)
pub proof fn stale_display_results_are_rejected(
    state: DisplayTaskView,
    now: u64,
    events: Seq<DisplayEvent>,
    may_apply: bool,
)
    requires
        invalidations(events) < 0x1_0000_0000_0000_0000,
    ensures
        ({
            let running = after_display_events(state.started(now), events);
            let shown = running.wanted(state.revision, may_apply);
            &&& shown == (invalidations(events) == 0 && may_apply)
            &&& !shown ==> running.finished(state.revision, may_apply).full_rebuild
            &&& running.finished(state.revision, may_apply).phase == DisplayPhase::Idle
        }),
{
    revision_counts_invalidations(state.started(now), events);
}

#[derive(Debug, Clone, Copy)]
pub struct SearchRun {
    pub revision: u64,
    pub generation: u64,
}

#[derive(Debug, Clone, Copy)]
pub enum SearchPhase {
    Idle,
    Debouncing { not_before: u64 },
    Ready,
    Running { run: SearchRun, rerun_not_before: Option<u64> },
}

/// Serializes search tasks while retaining the latest request made during an active run.
#[derive(Debug)]
pub struct SearchTaskState {
    revision: u64,
    phase: SearchPhase,
    reset_selection: bool,
}

pub struct SearchTaskView {
    pub revision: u64,
    pub phase: SearchPhase,
    pub reset_selection: bool,
}

/// A search that waits for a time, or does not have to wait any more.
pub open spec fn waiting(not_before: u64, now: u64) -> SearchPhase {
    if not_before > now {
        SearchPhase::Debouncing { not_before }
    } else {
        SearchPhase::Ready
    }
}

impl SearchTaskView {
    pub open spec fn running(self) -> bool {
        self.phase is Running
    }

    pub open spec fn pending(self) -> bool {
        match self.phase {
            SearchPhase::Idle => false,
            SearchPhase::Debouncing { .. } => true,
            SearchPhase::Ready => true,
            SearchPhase::Running { rerun_not_before, .. } => rerun_not_before is Some,
        }
    }

    pub open spec fn queued(self, not_before: u64, now: u64) -> Self {
        SearchTaskView {
            phase: match self.phase {
                SearchPhase::Running { run, .. } => SearchPhase::Running {
                    run,
                    rerun_not_before: Some(not_before),
                },
                _ => waiting(not_before, now),
            },
            ..self
        }
    }

    pub open spec fn requested(self, debounce: u64, reset_selection: bool, now: u64) -> Self {
        SearchTaskView {
            revision: next_revision(self.revision),
            reset_selection: self.reset_selection || reset_selection,
            ..self
        }.queued((now + debounce) as u64, now)
    }

    /// The time before which the next search must not start.
    pub open spec fn waits_until(self) -> Option<u64> {
        match self.phase {
            SearchPhase::Debouncing { not_before } => Some(not_before),
            SearchPhase::Running { rerun_not_before, .. } => rerun_not_before,
            _ => None,
        }
    }

    /// A search for rows that have changed. What still has to wait goes on waiting.
    pub open spec fn requested_anew(self, now: u64) -> Self {
        let not_before = match self.waits_until() {
            Some(not_before) => if not_before > now {
                not_before
            } else {
                now
            },
            None => now,
        };
        SearchTaskView { revision: next_revision(self.revision), ..self }.queued(not_before, now)
    }

    pub open spec fn cancelled(self) -> Self {
        SearchTaskView {
            revision: next_revision(self.revision),
            reset_selection: false,
            phase: match self.phase {
                SearchPhase::Running { run, .. } => SearchPhase::Running {
                    run,
                    rerun_not_before: None,
                },
                _ => SearchPhase::Idle,
            },
        }
    }

    /// A search may start.
    pub open spec fn ready(self, now: u64) -> bool {
        match self.phase {
            SearchPhase::Ready => true,
            SearchPhase::Debouncing { not_before } => now >= not_before,
            _ => false,
        }
    }

    pub open spec fn started(self, generation: u64, now: u64) -> Self {
        if self.ready(now) {
            SearchTaskView {
                phase: SearchPhase::Running {
                    run: SearchRun { revision: self.revision, generation },
                    rerun_not_before: None,
                },
                ..self
            }
        } else {
            self
        }
    }

    /// The result of a run is still wanted.
    pub open spec fn wanted(self, revision: u64, generation: u64, current_generation: u64) -> bool {
        self.running() && revision == self.revision && generation == current_generation
    }

    pub open spec fn finished(
        self,
        revision: u64,
        generation: u64,
        current_generation: u64,
        matcher_available: bool,
        now: u64,
    ) -> Self {
        match self.phase {
            SearchPhase::Running { rerun_not_before, .. } => SearchTaskView {
                phase: if self.wanted(revision, generation, current_generation) {
                    SearchPhase::Idle
                } else {
                    match rerun_not_before {
                        Some(not_before) => waiting(not_before, now),
                        None => if revision == self.revision && matcher_available {
                            SearchPhase::Ready
                        } else {
                            SearchPhase::Idle
                        },
                    }
                },
                ..self
            },
            _ => self,
        }
    }

    pub open spec fn aborted(self) -> Self {
        if self.running() {
            SearchTaskView { phase: SearchPhase::Idle, reset_selection: false, ..self }
        } else {
            self
        }
    }
}

impl SearchTaskState {
    pub closed spec fn inner(self) -> SearchTaskView {
        SearchTaskView {
            revision: self.revision,
            phase: self.phase,
            reset_selection: self.reset_selection,
        }
    }

    pub fn new() -> (state: Self)
        ensures
            state.inner() == (SearchTaskView {
                revision: 0,
                phase: SearchPhase::Idle,
                reset_selection: false,
            }),
    {
        SearchTaskState { revision: 0, phase: SearchPhase::Idle, reset_selection: false }
    }

    pub fn is_running(&self) -> (running: bool)
        ensures
            running == self.inner().running(),
    {
        matches!(self.phase, SearchPhase::Running { .. })
    }

    /// Nothing was asked for since a revision.
    pub fn is_revision(&self, revision: u64) -> (same: bool)
        ensures
            same == (self.inner().revision == revision),
    {
        self.revision == revision
    }

    pub fn is_pending(&self) -> (pending: bool)
        ensures
            pending == self.inner().pending(),
    {
        match self.phase {
            SearchPhase::Idle => false,
            SearchPhase::Debouncing { .. } => true,
            SearchPhase::Ready => true,
            SearchPhase::Running { rerun_not_before, .. } => rerun_not_before.is_some(),
        }
    }

    pub fn is_busy(&self) -> (busy: bool)
        ensures
            busy == (self.inner().running() || self.inner().pending()),
    {
        self.is_running() || self.is_pending()
    }

    pub fn request_debounced(&mut self, debounce: u64, reset_selection: bool, now: u64)
        requires
            now + debounce <= u64::MAX,
        ensures
            final(self).inner() == old(self).inner().requested(debounce, reset_selection, now),
    {
        self.revision = self.revision.wrapping_add(1);
        if reset_selection {
            self.reset_selection = true;
        }
        self.queue(now + debounce, now);
    }

    pub fn request_now(&mut self, now: u64)
        ensures
            final(self).inner() == old(self).inner().requested(0, false, now),
    {
        self.revision = self.revision.wrapping_add(1);
        self.queue(now, now);
    }

    /// Asks for a search because the rows have changed. What still has to wait goes on waiting.
    pub fn request_anew(&mut self, now: u64)
        ensures
            final(self).inner() == old(self).inner().requested_anew(now),
    {
        let waits_until = match self.phase {
            SearchPhase::Debouncing { not_before } => Some(not_before),
            SearchPhase::Running { rerun_not_before, .. } => rerun_not_before,
            _ => None,
        };
        let not_before: u64 = match waits_until {
            Some(not_before) => if not_before > now {
                not_before
            } else {
                now
            },
            None => now,
        };
        self.revision = self.revision.wrapping_add(1);
        self.queue(not_before, now);
    }

    fn queue(&mut self, not_before: u64, now: u64)
        ensures
            final(self).inner() == old(self).inner().queued(not_before, now),
    {
        self.phase = match self.phase {
            SearchPhase::Running { run, .. } => SearchPhase::Running {
                run,
                rerun_not_before: Some(not_before),
            },
            _ => Self::waiting_phase(not_before, now),
        };
    }

    fn waiting_phase(not_before: u64, now: u64) -> (phase: SearchPhase)
        ensures
            phase == waiting(not_before, now),
    {
        if not_before > now {
            SearchPhase::Debouncing { not_before }
        } else {
            SearchPhase::Ready
        }
    }

    /// Invalidates an active result and removes any queued rerun.
    pub fn cancel(&mut self)
        ensures
            final(self).inner() == old(self).inner().cancelled(),
    {
        self.revision = self.revision.wrapping_add(1);
        self.reset_selection = false;
        self.phase = match self.phase {
            SearchPhase::Running { run, .. } => SearchPhase::Running {
                run,
                rerun_not_before: None,
            },
            _ => SearchPhase::Idle,
        };
    }

    /// How long a debounced search still has to wait.
    pub fn debounce_remaining(&self, now: u64) -> (remaining: Option<u64>)
        ensures
            remaining == match self.inner().phase {
                SearchPhase::Debouncing { not_before } => time_left(not_before, now),
                _ => None,
            },
    {
        match self.phase {
            SearchPhase::Debouncing { not_before } => if not_before > now {
                Some(not_before - now)
            } else {
                None
            },
            _ => None,
        }
    }

    /// Starts the search that is due, and tells the revision and the generation it is for.
    pub fn start(&mut self, generation: u64, now: u64) -> (run: Option<(u64, u64)>)
        ensures
            final(self).inner() == old(self).inner().started(generation, now),
            run == if old(self).inner().ready(now) {
                Some((old(self).inner().revision, generation))
            } else {
                None
            },
    {
        let ready = match self.phase {
            SearchPhase::Ready => true,
            SearchPhase::Debouncing { not_before } => now >= not_before,
            _ => false,
        };
        if !ready {
            return None;
        }
        let run = SearchRun { revision: self.revision, generation };
        self.phase = SearchPhase::Running { run, rerun_not_before: None };
        Some((run.revision, run.generation))
    }

    /// Completes the active run, and reports whether its result is still wanted. A stale run
    /// either yields to the queued request or schedules an immediate rerun when only the display
    /// generation changed.
    pub fn finish(
        &mut self,
        revision: u64,
        generation: u64,
        current_generation: u64,
        matcher_available: bool,
        now: u64,
    ) -> (current: bool)
        ensures
            final(self).inner() == old(self).inner().finished(
                revision,
                generation,
                current_generation,
                matcher_available,
                now,
            ),
            current == old(self).inner().wanted(revision, generation, current_generation),
    {
        let rerun_not_before = match self.phase {
            SearchPhase::Running { rerun_not_before, .. } => rerun_not_before,
            _ => return false,
        };
        let current = revision == self.revision && generation == current_generation;
        self.phase = if current {
            SearchPhase::Idle
        } else if let Some(not_before) = rerun_not_before {
            Self::waiting_phase(not_before, now)
        } else if revision == self.revision && matcher_available {
            SearchPhase::Ready
        } else {
            SearchPhase::Idle
        };
        current
    }

    /// Gives up the active run.
    pub fn abort(&mut self, revision: u64, generation: u64)
        requires
            old(self).inner().running() ==> old(self).inner().phase->run == (SearchRun {
                revision,
                generation,
            }),
        ensures
            final(self).inner() == old(self).inner().aborted(),
    {
        if self.is_running() {
            self.phase = SearchPhase::Idle;
            self.reset_selection = false;
        }
    }

    /// Whether the next result puts the selection on its first match; asked for once.
    pub fn take_reset_selection(&mut self) -> (reset: bool)
        ensures
            reset == old(self).inner().reset_selection,
            final(self).inner() == (SearchTaskView {
                reset_selection: false,
                ..old(self).inner()
            }),
    {
        let reset = self.reset_selection;
        self.reset_selection = false;
        reset
    }
}

/// What can be asked of the search while a run is under way.
pub enum SearchEvent {
    Request { debounce: u64, reset_selection: bool, now: u64 },
    /// The rows have changed.
    RequestAnew { now: u64 },
    Cancel,
}

pub open spec fn after_search_events(
    state: SearchTaskView,
    events: Seq<SearchEvent>,
) -> SearchTaskView
    decreases events.len(),
{
    if events.len() == 0 {
        state
    } else {
        let before = after_search_events(state, events.drop_last());
        match events.last() {
            SearchEvent::Request { debounce, reset_selection, now } => before.requested(
                debounce,
                reset_selection,
                now,
            ),
            SearchEvent::RequestAnew { now } => before.requested_anew(now),
            SearchEvent::Cancel => before.cancelled(),
        }
    }
}

proof fn events_leave_the_run(state: SearchTaskView, events: Seq<SearchEvent>)
    requires
        state.phase is Running,
        state.phase->rerun_not_before is None,
    ensures
        ({
            let after = after_search_events(state, events);
            &&& after.phase is Running
            &&& after.phase->run == state.phase->run
            &&& after.revision == (state.revision + events.len()) % 0x1_0000_0000_0000_0000
            &&& after.pending() == (events.len() > 0 && events.last() !is Cancel)
        }),
    decreases events.len(),
{
    if events.len() > 0 {
        events_leave_the_run(state, events.drop_last());
    }
}

/// A change of the rows does not cut short the wait of a search that was just asked for.
pub proof fn changed_rows_do_not_hasten_a_search(state: SearchTaskView, now: u64, later: u64)
    requires
        state.phase matches SearchPhase::Debouncing { not_before } && now < not_before,
    ensures
        state.requested_anew(now).ready(later) == (later >= state.phase->not_before),
{
}

/// Searches do not overlap: while one runs, none starts, whatever is asked for meanwhile. Its
/// result is shown if and only if nothing was asked for and the display is the one it was made
/// for. Otherwise the latest word decides what follows: a request is run after it, a cancelled
/// search is not, and without either the search is repeated for the new display. (Revisions
/// repeat after 2^64 events.)
pub proof fn latest_search_request_decides(
    state: SearchTaskView,
    generation: u64,
    start: u64,
    events: Seq<SearchEvent>,
    other_generation: u64,
    current_generation: u64,
    matcher_available: bool,
    now: u64,
)
    requires
        state.ready(start),
        events.len() < 0x1_0000_0000_0000_0000,
    ensures
        ({
            let running = after_search_events(state.started(generation, start), events);
            let after = running.finished(
                state.revision,
                generation,
                current_generation,
                matcher_available,
                now,
            );
            let shown = running.wanted(state.revision, generation, current_generation);
            &&& running.started(other_generation, now) == running
            &&& shown == (events.len() == 0 && generation == current_generation)
            &&& !after.running()
            &&& after.pending() == if events.len() > 0 {
                events.last() !is Cancel
            } else {
                generation != current_generation && matcher_available
            }
        }),
{
    events_leave_the_run(state.started(generation, start), events);
}

/// A search that is asked for starts once the wait is over, and not before; one that is cancelled
/// does not start at all, and the result of one that runs is not shown.
pub proof fn searches_wait_as_long_as_asked(
    state: SearchTaskView,
    debounce: u64,
    reset: bool,
    now: u64,
    later: u64,
    generation: u64,
)
    requires
        now + debounce <= u64::MAX,
        now <= later,
    ensures
        !state.running() ==> (state.requested(debounce, reset, now).ready(later) <==> later >= now
            + debounce),
        state.running() ==> !state.requested(debounce, reset, now).ready(later),
        state.requested(debounce, reset, now).pending(),
        state.requested(debounce, reset, now).reset_selection == (state.reset_selection || reset),
        state.requested(debounce, reset, now).running() == state.running(),
        !state.requested(debounce, reset, now).wanted(state.revision, generation, generation),
        !state.cancelled().pending(),
        !state.cancelled().ready(later),
        !state.cancelled().reset_selection,
        state.cancelled().running() == state.running(),
        !state.cancelled().wanted(state.revision, generation, generation),
        !state.aborted().running(),
        !state.running() ==> state.aborted() == state,
        state.running() ==> !state.aborted().pending() && state.aborted().revision
            == state.revision,
        state.ready(now) ==> state.started(generation, now).running() && state.started(
            generation,
            now,
        ).wanted(state.revision, generation, generation),
        !state.ready(now) ==> state.started(generation, now) == state,
{
}

} // verus!
