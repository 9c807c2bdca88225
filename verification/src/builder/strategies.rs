//! When background maintenance runs.
//!
//! A strategy decides when its task is triggered: once at the start, at regular
//! intervals, or on demand. Each is given here as the steps that it goes
//! through; a task is stopped by cancellation, and when the maintenance queue
//! takes no more tasks.

use vstd::prelude::*;

use crate::error;
use crate::error::BlobStorageError;
use crate::error::ErrorView;
use crate::error::Result;

verus! {

/// A span of time.
#[derive(Debug, Clone, Copy, PartialEq, Eq, Structural)]
pub struct Interval {
    pub secs: u64,
    pub nanos: u32,
}

/// A strategy as far as building a store looks at it.
pub trait BackgroundStrategy {
    /// Whether the strategy is usable. A strategy of which proofs are to speak says so
    /// here; one that is written outside of `verus!` leaves this out.
    open spec fn validity(&self) -> core::result::Result<(), ErrorView> {
        arbitrary()
    }

    /// Refuse an unusable strategy. Called before anything is built.
    fn validate(&self) -> (r: Result<()>)
        ensures
            error::result_view(r) == self.validity(),
    ;
}

/// Triggers a task once, when the store is built.
#[derive(Debug, Clone, Copy)]
pub struct OnStart;

impl BackgroundStrategy for OnStart {
    open spec fn validity(&self) -> core::result::Result<(), ErrorView> {
        Ok(())
    }

    fn validate(&self) -> (r: Result<()>) {
        Ok(())
    }
}

impl OnStart {
    /// Whether the task is triggered, from whether cancellation has been
    /// signalled: cancellation takes precedence.
    pub fn triggers(&self, cancelled: bool) -> (r: bool)
        ensures
            r == !cancelled,
    {
        !cancelled
    }
}

/// Triggers a task when the store is built, and after every interval from then
/// on.
#[derive(Debug, Clone, Copy)]
pub struct Periodic(pub Interval);

impl Periodic {
    /// Whether the interval has no length.
    pub open spec fn zero(&self) -> bool {
        self.0.secs == 0 && self.0.nanos == 0
    }

    /// Whether the interval has no length.
    pub fn is_zero(&self) -> (r: bool)
        ensures
            r == self.zero(),
    {
        self.0.secs == 0 && self.0.nanos == 0
    }
}

impl BackgroundStrategy for Periodic {
    open spec fn validity(&self) -> core::result::Result<(), ErrorView> {
        if self.zero() {
            Err(ErrorView::InvalidInput("Periodic duration must be non-zero"@))
        } else {
            Ok(())
        }
    }

    fn validate(&self) -> (r: Result<()>) {
        if self.is_zero() {
            return Err(
                BlobStorageError::InvalidInput("Periodic duration must be non-zero".to_owned()),
            );
        }
        Ok(())
    }
}

/// Resumes a periodic task once it has been triggered.
#[derive(Clone, Copy)]
pub struct AwaitTriggered {
    pub period: Interval,
}

/// Resumes a periodic task once it has slept.
#[derive(Clone, Copy)]
pub struct AwaitTick {
    pub period: Interval,
}

/// The next step of a periodic task.
#[allow(inconsistent_fields)]
pub enum PeriodicStep {
    /// Put the task into the maintenance queue.
    Trigger { then: AwaitTriggered },
    /// Sleep for the period, or until cancellation is signalled.
    Sleep { period: Interval, then: AwaitTick },
    /// The task is over.
    Stop,
}

/// What a periodic task does first: nothing for an interval without length.
pub open spec fn periodic_start(p: Periodic) -> PeriodicStep {
    if p.zero() {
        PeriodicStep::Stop
    } else {
        PeriodicStep::Trigger { then: AwaitTriggered { period: p.0 } }
    }
}

/// What a periodic task does when it has been triggered, or could not be.
pub open spec fn after_triggered(period: Interval, queued: bool) -> PeriodicStep {
    if queued {
        PeriodicStep::Sleep { period, then: AwaitTick { period } }
    } else {
        PeriodicStep::Stop
    }
}

/// What a periodic task does when it has slept. Cancellation may have ended the
/// sleep, or may have been signalled at the same time.
pub open spec fn after_tick(period: Interval, woken_by_cancel: bool, cancelled: bool) -> PeriodicStep {
    if woken_by_cancel || cancelled {
        PeriodicStep::Stop
    } else {
        PeriodicStep::Trigger { then: AwaitTriggered { period } }
    }
}

impl Periodic {
    /// Begin the task.
    pub fn schedule(&self) -> (r: PeriodicStep)
        ensures
            r == periodic_start(*self),
    {
        if self.is_zero() {
            PeriodicStep::Stop
        } else {
            PeriodicStep::Trigger { then: AwaitTriggered { period: self.0 } }
        }
    }
}

impl AwaitTriggered {
    /// Go on with whether the queue took the task.
    pub fn triggered(self, queued: bool) -> (r: PeriodicStep)
        ensures
            r == after_triggered(self.period, queued),
    {
        if queued {
            PeriodicStep::Sleep { period: self.period, then: AwaitTick { period: self.period } }
        } else {
            PeriodicStep::Stop
        }
    }
}

impl AwaitTick {
    /// Go on after the sleep: whether cancellation ended it, and whether
    /// cancellation has been signalled.
    pub fn woken(self, woken_by_cancel: bool, cancelled: bool) -> (r: PeriodicStep)
        ensures
            r == after_tick(self.period, woken_by_cancel, cancelled),
    {
        if woken_by_cancel || cancelled {
            PeriodicStep::Stop
        } else {
            PeriodicStep::Trigger { then: AwaitTriggered { period: self.period } }
        }
    }
}

/// The signal after the given one. A task that is triggered on demand runs when
/// it sees the signal change, once for all changes since it last looked.
pub fn next_signal(current: u64) -> (r: u64)
    ensures
        r == if current == u64::MAX {
            0
        } else {
            current + 1
        },
        r != current,
{
    if current == u64::MAX {
        0
    } else {
        current + 1
    }
}

/// What a task that is triggered on demand waits for.
#[derive(Clone, Copy)]
pub enum Signal {
    /// The signal changed.
    Changed,
    /// Nobody can change the signal any more.
    Closed,
    /// Cancellation was signalled.
    Cancelled,
}

/// The next step of a task that is triggered on demand.
#[derive(Clone, Copy)]
pub enum ManualStep {
    /// Wait for a change of the signal, or for cancellation.
    Wait,
    /// Put the task into the maintenance queue.
    Trigger,
    /// The task is over.
    Stop,
}

/// What a task that is triggered on demand does after a signal.
pub open spec fn after_signal(signal: Signal) -> ManualStep {
    match signal {
        Signal::Changed => ManualStep::Trigger,
        _ => ManualStep::Stop,
    }
}

/// What a task that is triggered on demand does when it has been triggered.
pub open spec fn after_manual_trigger(queued: bool) -> ManualStep {
    if queued {
        ManualStep::Wait
    } else {
        ManualStep::Stop
    }
}

/// Go on with what the task has waited for.
pub fn manual_signalled(signal: Signal) -> (r: ManualStep)
    ensures
        r == after_signal(signal),
{
    match signal {
        Signal::Changed => ManualStep::Trigger,
        Signal::Closed => ManualStep::Stop,
        Signal::Cancelled => ManualStep::Stop,
    }
}

/// Go on with whether the queue took the task.
pub fn manual_triggered(queued: bool) -> (r: ManualStep)
    ensures
        r == after_manual_trigger(queued),
{
    if queued {
        ManualStep::Wait
    } else {
        ManualStep::Stop
    }
}

/// What happens in one round of a periodic task: whether the queue takes the
/// task, and how the sleep after that ends.
pub struct Round {
    pub queued: bool,
    pub woken_by_cancel: bool,
    pub cancelled: bool,
}

/// The number of times that a periodic task is triggered in the given rounds.
pub open spec fn run_periodic(step: PeriodicStep, rounds: Seq<Round>) -> nat
    decreases rounds.len(),
{
    match step {
        PeriodicStep::Trigger { then } => if rounds.len() == 0 {
            0
        } else {
            let round = rounds[0];
            match after_triggered(then.period, round.queued) {
                PeriodicStep::Sleep { then: tick, .. } => 1 + run_periodic(
                    after_tick(tick.period, round.woken_by_cancel, round.cancelled),
                    rounds.skip(1),
                ),
                _ => 1,
            }
        },
        _ => 0,
    }
}

/// A periodic task is triggered at once, and then in every round up to the first
/// one in which the queue is closed or cancellation is signalled; never after
/// that. An interval without length triggers nothing.
pub proof fn law_periodic_triggers_until_stopped(p: Periodic, rounds: Seq<Round>, stop: int)
    requires
        0 <= stop < rounds.len(),
        forall|i: int|
            0 <= i < stop ==> (#[trigger] rounds[i]).queued && !rounds[i].woken_by_cancel
                && !rounds[i].cancelled,
        !rounds[stop].queued || rounds[stop].woken_by_cancel || rounds[stop].cancelled,
    ensures
        run_periodic(periodic_start(p), rounds) == if p.zero() {
            0
        } else {
            stop + 1
        },
    decreases rounds.len(),
{
    if !p.zero() {
        assert(rounds[0].queued || stop == 0);
        assert(run_periodic(PeriodicStep::Stop, rounds.skip(1)) == 0);
        if stop > 0 {
            let later = rounds.skip(1);
            assert forall|i: int| 0 <= i < stop - 1 implies (#[trigger] later[i]).queued
                && !later[i].woken_by_cancel && !later[i].cancelled by {
                assert(later[i] == rounds[i + 1]);
            }
            assert(later[stop - 1] == rounds[stop]);
            law_periodic_triggers_until_stopped(p, later, stop - 1);
        }
    }
}

/// The number of times that a task is triggered on demand, when it sees the given
/// signals and the queue takes the task.
pub open spec fn run_manual(signals: Seq<Signal>) -> nat
    decreases signals.len(),
{
    if signals.len() == 0 {
        0
    } else {
        match after_signal(signals[0]) {
            ManualStep::Trigger => 1 + (match after_manual_trigger(true) {
                ManualStep::Wait => run_manual(signals.skip(1)),
                _ => 0,
            }),
            _ => 0,
        }
    }
}

/// A task that is triggered on demand runs once for every change that it sees,
/// up to cancellation or the end of the signal.
pub proof fn law_manual_triggers_once_per_change(signals: Seq<Signal>, stop: int)
    requires
        0 <= stop <= signals.len(),
        forall|i: int| 0 <= i < stop ==> #[trigger] signals[i] is Changed,
        stop < signals.len() ==> !(signals[stop] is Changed),
    ensures
        run_manual(signals) == stop,
    decreases signals.len(),
{
    if stop > 0 {
        let later = signals.skip(1);
        assert(signals[0] is Changed);
        assert forall|i: int| 0 <= i < stop - 1 implies #[trigger] later[i] is Changed by {
            assert(later[i] == signals[i + 1]);
        }
        if stop < signals.len() {
            assert(later[stop - 1] == signals[stop]);
        }
        law_manual_triggers_once_per_change(later, stop - 1);
    }
}

/// The sleeps that a periodic task asks for in the given rounds, in order.
pub open spec fn run_sleeps(step: PeriodicStep, rounds: Seq<Round>) -> Seq<Interval>
    decreases rounds.len(),
{
    match step {
        PeriodicStep::Trigger { then } => if rounds.len() == 0 {
            seq![]
        } else {
            let round = rounds[0];
            match after_triggered(then.period, round.queued) {
                PeriodicStep::Sleep { period, then: tick } => seq![period] + run_sleeps(
                    after_tick(tick.period, round.woken_by_cancel, round.cancelled),
                    rounds.skip(1),
                ),
                _ => seq![],
            }
        },
        _ => seq![],
    }
}

/// A task that is about to be triggered sleeps for its own period only.
proof fn lemma_sleeps(period: Interval, rounds: Seq<Round>)
    ensures
        ({
            let sleeps = run_sleeps(
                PeriodicStep::Trigger { then: AwaitTriggered { period } },
                rounds,
            );
            &&& forall|i: int| 0 <= i < sleeps.len() ==> #[trigger] sleeps[i] == period
            &&& sleeps.len() <= rounds.len()
            &&& forall|n: int|
                0 <= n < rounds.len() && (forall|i: int|
                    0 <= i < n ==> (#[trigger] rounds[i]).queued && !rounds[i].woken_by_cancel
                        && !rounds[i].cancelled) && (#[trigger] rounds[n]).queued ==> sleeps.len()
                    > n
        }),
    decreases rounds.len(),
{
    let step = PeriodicStep::Trigger { then: AwaitTriggered { period } };
    if rounds.len() > 0 {
        let later = rounds.skip(1);
        let sleeps = run_sleeps(step, rounds);
        let more = run_sleeps(step, later);
        lemma_sleeps(period, later);
        assert(run_sleeps(PeriodicStep::Stop, later) =~= seq![]);
        assert forall|i: int| 0 <= i < sleeps.len() implies #[trigger] sleeps[i] == period by {
            if i > 0 {
                assert(sleeps[i] == more[i - 1]);
            }
        }
        assert forall|n: int|
            0 <= n < rounds.len() && (forall|i: int|
                0 <= i < n ==> (#[trigger] rounds[i]).queued && !rounds[i].woken_by_cancel
                    && !rounds[i].cancelled) && (#[trigger] rounds[n]).queued implies sleeps.len()
            > n by {
            if n > 0 {
                assert(rounds[0].queued);
                assert forall|i: int| 0 <= i < n - 1 implies (#[trigger] later[i]).queued
                    && !later[i].woken_by_cancel && !later[i].cancelled by {
                    assert(later[i] == rounds[i + 1]);
                }
                assert(later[n - 1] == rounds[n]);
            }
        }
    }
}

/// Every sleep of a periodic task has exactly the interval that the strategy was
/// made with, seconds and nanoseconds alike, however long the task runs and however
/// it ends. It sleeps after each time that the queue took it, as long as nothing
/// stopped it before.
pub proof fn law_periodic_sleeps_for_its_interval(p: Periodic, rounds: Seq<Round>)
    ensures
        ({
            let sleeps = run_sleeps(periodic_start(p), rounds);
            &&& forall|i: int|
                0 <= i < sleeps.len() ==> (#[trigger] sleeps[i]).secs == p.0.secs && sleeps[i].nanos
                    == p.0.nanos
            &&& p.0.secs > 0 || p.0.nanos > 0 ==> forall|n: int|
                0 <= n < rounds.len() && (forall|i: int|
                    0 <= i < n ==> (#[trigger] rounds[i]).queued && !rounds[i].woken_by_cancel
                        && !rounds[i].cancelled) && (#[trigger] rounds[n]).queued ==> sleeps.len()
                    > n
            &&& sleeps.len() <= rounds.len()
        }),
{
    lemma_sleeps(p.0, rounds);
}

/// An interval is usable exactly when it has a length, however short. A task with a
/// usable one is triggered at once; one with an unusable interval never starts. The
/// strategy that triggers once is always usable.
pub proof fn law_only_empty_intervals_are_refused(p: Periodic, once: OnStart)
    ensures
        p.validity() is Ok <==> p.0.secs > 0 || p.0.nanos > 0,
        p.validity() matches Err(e) ==> e == ErrorView::InvalidInput(
            "Periodic duration must be non-zero"@,
        ),
        periodic_start(p) is Trigger <==> p.0.secs > 0 || p.0.nanos > 0,
        periodic_start(p) is Stop <==> p.0.secs == 0 && p.0.nanos == 0,
        once.validity() is Ok,
{
}

/// The number of times that a task is triggered on demand, when it sees the given
/// signals and the queue answers the `i`-th trigger with `queued[i]`.
pub open spec fn run_manual_queue(signals: Seq<Signal>, queued: Seq<bool>) -> nat
    decreases signals.len(),
{
    if signals.len() == 0 {
        0
    } else {
        match after_signal(signals[0]) {
            ManualStep::Trigger => 1 + (match after_manual_trigger(queued[0]) {
                ManualStep::Wait => run_manual_queue(signals.skip(1), queued.skip(1)),
                _ => 0,
            }),
            _ => 0,
        }
    }
}

/// A task that is triggered on demand ends when the queue does not take it: it is
/// triggered once for every change that it sees up to then, and never again.
pub proof fn law_manual_ends_with_the_queue(signals: Seq<Signal>, queued: Seq<bool>, n: int)
    requires
        queued.len() == signals.len(),
        0 <= n < signals.len(),
        forall|i: int| 0 <= i <= n ==> #[trigger] signals[i] is Changed,
        forall|i: int| 0 <= i < n ==> #[trigger] queued[i],
        !queued[n],
    ensures
        run_manual_queue(signals, queued) == n + 1,
    decreases n,
{
    assert(signals[0] is Changed);
    if n > 0 {
        let later = signals.skip(1);
        let replies = queued.skip(1);
        assert(queued[0]);
        assert forall|i: int| 0 <= i <= n - 1 implies #[trigger] later[i] is Changed by {
            assert(later[i] == signals[i + 1]);
        }
        assert forall|i: int| 0 <= i < n - 1 implies #[trigger] replies[i] by {
            assert(replies[i] == queued[i + 1]);
        }
        assert(replies[n - 1] == queued[n]);
        law_manual_ends_with_the_queue(later, replies, n - 1);
    }
}

/// A periodic task sleeps after each time that the queue took it and ends when the queue
/// did not, or when cancellation was signalled during the sleep; otherwise it is
/// triggered again. A task on demand is triggered by a change of its signal and by
/// nothing else, and waits again when the queue took it.
pub proof fn law_tasks_end_with_the_queue_and_with_cancellation(
    period: Interval,
    woken_by_cancel: bool,
    cancelled: bool,
    signal: Signal,
)
    ensures
        after_triggered(period, true) matches PeriodicStep::Sleep { period: asked, then }
            && asked == period && then.period == period,
        after_triggered(period, false) is Stop,
        woken_by_cancel || cancelled ==> after_tick(period, woken_by_cancel, cancelled) is Stop,
        !woken_by_cancel && !cancelled ==> (after_tick(
            period,
            woken_by_cancel,
            cancelled,
        ) matches PeriodicStep::Trigger { then } && then.period == period),
        after_signal(signal) is Trigger <==> signal is Changed,
        after_signal(signal) is Stop <==> !(signal is Changed),
        after_manual_trigger(true) is Wait,
        after_manual_trigger(false) is Stop,
{
}

} // verus!
