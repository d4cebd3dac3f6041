//! Keeping the sync with the homeserver going.
//!
//! A wedged sync returns no error and ends no loop: the only reliable sign of it is that no sync
//! completes.

use vstd::prelude::*;

verus! {

/// How long no sync may complete before the sync counts as stalled, in seconds.
pub const SYNC_STALL_TIMEOUT: u64 = 120;

/// How often that is looked at, in seconds.
pub const WATCHDOG_TICK: u64 = 15;

/// The delay before the sync is started again after its first failure, in seconds.
pub const SYNC_RESTART_DELAY: u64 = 5;

/// How many times the delay is lengthened.
pub const MAX_BACKOFF: u32 = 12;

/// Why the sync stopped.
#[derive(Debug, Clone, Copy, PartialEq, Eq, Structural)]
pub enum SyncOutcome {
    /// The bridge is shutting down.
    Cancelled,
    /// It came to its end.
    Finished,
    /// It returned an error.
    Failed,
    /// It ended in a panic, or was aborted.
    Crashed,
    /// No sync completed for so many seconds.
    Stalled(u64),
}

/// What to do when the sync has stopped.
#[derive(Debug, Clone, Copy, PartialEq, Eq, Structural)]
pub enum SyncStep {
    /// Leave it.
    Stop,
    /// Start it again after so many seconds.
    RestartAfter(u64),
}

/// Where the supervision stands.
#[derive(Debug, Clone, Copy, PartialEq, Eq, Structural)]
pub enum SyncPhase {
    /// No sync is going on; one is due, at once or after a delay.
    Waiting,
    /// A sync is going on.
    Running,
    /// There will be no sync any more.
    Over,
}

/// What the supervision is told.
#[derive(Debug, Clone, Copy, PartialEq, Eq, Structural)]
pub enum SyncEvent {
    /// The delay is over.
    Due,
    /// The sync was looked at, at `now`, where `heartbeat` is when one last completed.
    Looked { now: u64, heartbeat: u64 },
    /// The sync stopped, or the bridge is shutting down.
    Stopped(SyncOutcome),
}

/// What the supervision asks for.
#[derive(Debug, Clone, Copy, PartialEq, Eq, Structural)]
pub enum SyncAction {
    /// Start a sync.
    Start,
    /// Go on, and look again.
    Watch,
    /// End the sync, if it is still going on, and say after so many seconds that one is due.
    Restart(u64),
    /// End the sync, if it is still going on, and return.
    Return,
}

/// The supervision of the sync: how often it has failed, and where it stands.
#[derive(Debug)]
pub struct SyncSupervisor {
    pub failures: u32,
    pub phase: SyncPhase,
}

/// The supervision of the sync: how often it has failed, and where it stands.
pub struct SyncModel {
    pub failures: int,
    pub phase: SyncPhase,
}

impl View for SyncSupervisor {
    type V = SyncModel;

    open spec fn view(&self) -> SyncModel {
        SyncModel { failures: self.failures as int, phase: self.phase }
    }
}

/// Whether the sync stopped for good.
pub open spec fn for_good(outcome: SyncOutcome) -> bool {
    outcome == SyncOutcome::Cancelled || outcome == SyncOutcome::Finished
}

/// The delay after so many failures, in seconds: it grows with each of them, up to a limit.
pub open spec fn backoff(failures: int) -> int {
    SYNC_RESTART_DELAY * if failures < MAX_BACKOFF {
        failures
    } else {
        MAX_BACKOFF as int
    }
}

/// For how many seconds no sync has completed, at `now`, where that is too long. `heartbeat` is
/// when the last one completed; a clock that was set back counts as no time.
pub fn stalled_for(now: u64, heartbeat: u64) -> (idle: Option<u64>)
    ensures
        idle == if now - heartbeat >= SYNC_STALL_TIMEOUT {
            Some((now - heartbeat) as u64)
        } else {
            None
        },
{
    let idle: u64 = now.saturating_sub(heartbeat);
    if idle >= SYNC_STALL_TIMEOUT {
        Some(idle)
    } else {
        None
    }
}

/// Whether an event is the failure of a sync that is going on: it stopped, though not for good, or
/// no sync has completed for too long.
pub open spec fn fails(event: SyncEvent) -> bool {
    match event {
        SyncEvent::Due => false,
        SyncEvent::Looked { now, heartbeat } => now - heartbeat >= SYNC_STALL_TIMEOUT,
        SyncEvent::Stopped(outcome) => !for_good(outcome),
    }
}

impl SyncModel {
    /// Where the supervision stands after an event, and what it asks for. An event that says
    /// nothing of where it stands changes nothing.
    pub open spec fn after(self, event: SyncEvent) -> (SyncModel, SyncAction) {
        if self.phase == SyncPhase::Over || event == SyncEvent::Stopped(SyncOutcome::Cancelled) {
            (SyncModel { phase: SyncPhase::Over, ..self }, SyncAction::Return)
        } else if self.phase == SyncPhase::Waiting {
            if event == SyncEvent::Due {
                (SyncModel { phase: SyncPhase::Running, ..self }, SyncAction::Start)
            } else {
                (self, SyncAction::Watch)
            }
        } else if event == SyncEvent::Stopped(SyncOutcome::Finished) {
            (SyncModel { phase: SyncPhase::Over, ..self }, SyncAction::Return)
        } else if fails(event) {
            (
                SyncModel { failures: self.failures + 1, phase: SyncPhase::Waiting },
                SyncAction::Restart(backoff(self.failures + 1) as u64),
            )
        } else {
            (self, SyncAction::Watch)
        }
    }
}

impl SyncSupervisor {
    /// Supervision that has seen no failure yet; a sync is due.
    pub fn new() -> (supervisor: SyncSupervisor)
        ensures
            supervisor.failures == 0,
            supervisor.phase == SyncPhase::Waiting,
    {
        SyncSupervisor { failures: 0, phase: SyncPhase::Waiting }
    }

    /// Takes note of an event and tells what to do.
    pub fn next(&mut self, event: SyncEvent) -> (action: SyncAction)
        requires
            old(self).failures < u32::MAX,
        ensures
            (final(self)@, action) == old(self)@.after(event),
    {
        let outcome: SyncOutcome = match event {
            SyncEvent::Stopped(SyncOutcome::Cancelled) => {
                self.phase = SyncPhase::Over;
                return SyncAction::Return;
            },
            SyncEvent::Stopped(outcome) => outcome,
            SyncEvent::Looked { now, heartbeat } => match stalled_for(now, heartbeat) {
                Some(idle) => SyncOutcome::Stalled(idle),
                None => {
                    return if self.phase == SyncPhase::Over {
                        SyncAction::Return
                    } else {
                        SyncAction::Watch
                    };
                },
            },
            SyncEvent::Due => {
                return match self.phase {
                    SyncPhase::Over => SyncAction::Return,
                    SyncPhase::Running => SyncAction::Watch,
                    SyncPhase::Waiting => {
                        self.phase = SyncPhase::Running;
                        SyncAction::Start
                    },
                };
            },
        };
        match self.phase {
            SyncPhase::Over => SyncAction::Return,
            SyncPhase::Waiting => SyncAction::Watch,
            SyncPhase::Running => match self.stopped(outcome) {
                SyncStep::Stop => {
                    self.phase = SyncPhase::Over;
                    SyncAction::Return
                },
                SyncStep::RestartAfter(secs) => {
                    self.phase = SyncPhase::Waiting;
                    SyncAction::Restart(secs)
                },
            },
        }
    }

    /// The sync has stopped: takes note of it and tells what to do.
    pub fn stopped(&mut self, outcome: SyncOutcome) -> (step: SyncStep)
        requires
            old(self).failures < u32::MAX,
        ensures
            final(self).phase == old(self).phase,
            final(self).failures == if for_good(outcome) {
                old(self).failures as int
            } else {
                old(self).failures + 1
            },
            step == if for_good(outcome) {
                SyncStep::Stop
            } else {
                SyncStep::RestartAfter(backoff(old(self).failures + 1) as u64)
            },
    {
        match outcome {
            SyncOutcome::Cancelled | SyncOutcome::Finished => SyncStep::Stop,
            _ => {
                self.failures = self.failures + 1;
                let times: u32 = if self.failures < MAX_BACKOFF {
                    self.failures
                } else {
                    MAX_BACKOFF
                };
                SyncStep::RestartAfter(SYNC_RESTART_DELAY * times as u64)
            },
        }
    }
}

/// The sync is never started again at once, and never later than a minute on: a permanent failure
/// does not become a hot loop, and a passing one does not silence the bridge for long.
pub proof fn lemma_backoff_is_bounded(failures: int)
    requires
        failures >= 1,
    ensures
        SYNC_RESTART_DELAY <= backoff(failures) <= 60,
        backoff(failures) <= backoff(failures + 1),
{
}

/// Where the supervision stands after the first `n` events, from when it was made.
pub open spec fn after_first(events: Seq<SyncEvent>, n: nat) -> SyncModel
    decreases n,
{
    if n == 0 {
        SyncModel { failures: 0, phase: SyncPhase::Waiting }
    } else {
        after_first(events, (n - 1) as nat).after(events[n - 1]).0
    }
}

/// What the event at index `i` leads to.
pub open spec fn action_at(events: Seq<SyncEvent>, i: int) -> SyncAction {
    after_first(events, i as nat).after(events[i]).1
}

/// How many of the first `n` events had a sync started again.
pub open spec fn restarts(events: Seq<SyncEvent>, n: nat) -> nat
    decreases n,
{
    if n == 0 {
        0
    } else {
        restarts(events, (n - 1) as nat) + if action_at(events, n - 1) is Restart {
            1nat
        } else {
            0nat
        }
    }
}

/// Whether the event at index `i` is that the bridge is shutting down, or that a sync that was
/// going on came to its end.
pub open spec fn ends_at(events: Seq<SyncEvent>, i: int) -> bool {
    ||| events[i] == SyncEvent::Stopped(SyncOutcome::Cancelled)
    ||| events[i] == SyncEvent::Stopped(SyncOutcome::Finished) && after_first(
        events,
        i as nat,
    ).phase == SyncPhase::Running
}

/// The supervision returns exactly once the bridge is shutting down or a sync that was going on
/// came to its end: nothing else ends it, and neither is passed over.
pub proof fn lemma_supervision_ends_only_for_good(events: Seq<SyncEvent>, n: nat)
    requires
        n <= events.len(),
    ensures
        after_first(events, n).phase == SyncPhase::Over <==> exists|i: int|
            0 <= i < n && #[trigger] ends_at(events, i),
        n > 0 ==> (action_at(events, n - 1) == SyncAction::Return <==> after_first(events, n).phase
            == SyncPhase::Over),
    decreases n,
{
    if n > 0 {
        let last = n - 1;
        let before = after_first(events, last as nat);
        lemma_supervision_ends_only_for_good(events, last as nat);
        let here = ends_at(events, last);
        assert(after_first(events, n) == before.after(events[last]).0);
        assert(after_first(events, n).phase == SyncPhase::Over <==> before.phase == SyncPhase::Over
            || here);
        if exists|i: int| 0 <= i < n && #[trigger] ends_at(events, i) {
            let i = choose|i: int| 0 <= i < n && #[trigger] ends_at(events, i);
            assert(i == last || i < last);
        }
    }
}

/// A sync that is going on and fails, or with which no sync completes for two minutes, is ended and
/// started again: after five seconds, and after as many times five seconds as there were failures
/// so far, up to a minute. Until then nothing but a shutdown is heeded.
pub proof fn lemma_failed_sync_is_started_again(events: Seq<SyncEvent>, at: int)
    requires
        0 <= at < events.len(),
        after_first(events, at as nat).phase == SyncPhase::Running,
        fails(events[at]),
    ensures
        ({
            let count = restarts(events, (at + 1) as nat);
            let waiting = after_first(events, (at + 1) as nat);
            &&& count == restarts(events, at as nat) + 1
            &&& action_at(events, at) == SyncAction::Restart(
                (5 * if count < 12 {
                    count
                } else {
                    12
                }) as u64,
            )
            &&& waiting.phase == SyncPhase::Waiting
            &&& waiting.after(SyncEvent::Due) == (
                SyncModel { phase: SyncPhase::Running, ..waiting },
                SyncAction::Start,
            )
            &&& forall|event: SyncEvent|
                event != SyncEvent::Due && event != SyncEvent::Stopped(SyncOutcome::Cancelled)
                    ==> #[trigger] waiting.after(event) == (waiting, SyncAction::Watch)
        }),
{
    lemma_failures_are_counted(events, at as nat);
    assert(after_first(events, (at + 1) as nat) == after_first(events, at as nat).after(
        events[at],
    ).0);
}

/// As many failures are counted as there were restarts.
proof fn lemma_failures_are_counted(events: Seq<SyncEvent>, n: nat)
    ensures
        after_first(events, n).failures == restarts(events, n),
    decreases n,
{
    if n > 0 {
        lemma_failures_are_counted(events, (n - 1) as nat);
    }
}

/// A sync that is going on is left alone for as long as syncs complete.
pub proof fn lemma_completing_sync_is_left_alone(model: SyncModel, now: u64, heartbeat: u64)
    requires
        model.phase == SyncPhase::Running,
        now - heartbeat < SYNC_STALL_TIMEOUT,
    ensures
        model.after(SyncEvent::Looked { now, heartbeat }) == (model, SyncAction::Watch),
{
}

/// What the supervision does, event by event. A shutdown ends it. While it waits, a sync that is due
/// starts, and nothing else is heeded. While a sync runs, its end ends the supervision; a failure, a
/// crash, or no sync completing for 120 seconds or more has it start again after five seconds for
/// each failure so far, this one included, sixty at most; and otherwise it is watched on.
pub proof fn lemma_what_the_supervision_does(model: SyncModel, now: u64, heartbeat: u64, idle: u64)
    requires
        model.failures >= 0,
    ensures
        ({
            let next = model.failures + 1;
            let again = (
                SyncModel { failures: next, phase: SyncPhase::Waiting },
                SyncAction::Restart(
                    (if next <= 12 {
                        5 * next
                    } else {
                        60
                    }) as u64,
                ),
            );
            let over = (
                SyncModel { failures: model.failures, phase: SyncPhase::Over },
                SyncAction::Return,
            );
            &&& model.after(SyncEvent::Stopped(SyncOutcome::Cancelled)) == over
            &&& model.phase == SyncPhase::Over ==> forall|event: SyncEvent| #[trigger]
                model.after(event) == over
            &&& model.phase == SyncPhase::Waiting ==> model.after(SyncEvent::Due) == (
                SyncModel { failures: model.failures, phase: SyncPhase::Running },
                SyncAction::Start,
            ) && forall|event: SyncEvent|
                event != SyncEvent::Due && event != SyncEvent::Stopped(SyncOutcome::Cancelled)
                    ==> #[trigger] model.after(event) == (model, SyncAction::Watch)
            &&& model.phase == SyncPhase::Running ==> {
                &&& model.after(SyncEvent::Stopped(SyncOutcome::Finished)) == over
                &&& model.after(SyncEvent::Stopped(SyncOutcome::Failed)) == again
                &&& model.after(SyncEvent::Stopped(SyncOutcome::Crashed)) == again
                &&& model.after(SyncEvent::Stopped(SyncOutcome::Stalled(idle))) == again
                &&& model.after(SyncEvent::Due) == (model, SyncAction::Watch)
                &&& model.after(SyncEvent::Looked { now, heartbeat }) == if now - heartbeat >= 120 {
                    again
                } else {
                    (model, SyncAction::Watch)
                }
            }
        }),
{
}

} // verus!
