//! The shutdown protocol: when jobs are submitted, when the pool is drained and
//! when the termination signal is queued.

use vstd::prelude::*;

verus! {

/// The number of worker threads a run uses unless told otherwise.
pub const DEFAULT_WORKERS: usize = 6;

/// Where a run stands.
#[derive(Clone, Copy, Debug, PartialEq, Eq, Structural)]
pub enum Phase {
    /// The walker is discovering files; each becomes a job.
    Traversing,
    /// Every file was submitted; the pool is finishing its jobs.
    Draining,
    /// The pool is idle and the termination signal is queued.
    Terminating,
    /// The writer has seen the termination signal.
    Done,
}

/// What the dispatcher is told.
#[derive(Clone, Copy, Debug, PartialEq, Eq, Structural)]
pub enum Event {
    /// The walker found a file.
    FileDiscovered,
    /// The walker has listed every directory.
    TraversalFinished,
    /// Every job submitted so far has completed.
    PoolDrained,
    /// The writer received the termination signal.
    SignalObserved,
}

/// What the dispatcher's user does next.
#[derive(Clone, Copy, Debug, PartialEq, Eq, Structural)]
pub enum Action {
    /// Submit a checksum job for the file.
    SubmitJob,
    /// Block until the pool has no job left.
    DrainPool,
    /// Submit the one job that sends the termination signal.
    SubmitTermination,
    /// The run is complete.
    Finish,
    /// The event does not belong to this phase: do nothing.
    Ignore,
}

/// The phase that follows `phase` on `event`.
pub open spec fn next_phase(phase: Phase, event: Event) -> Phase {
    match (phase, event) {
        (Phase::Traversing, Event::TraversalFinished) => Phase::Draining,
        (Phase::Draining, Event::PoolDrained) => Phase::Terminating,
        (Phase::Terminating, Event::SignalObserved) => Phase::Done,
        _ => phase,
    }
}

/// The action that `event` calls for in `phase`.
pub open spec fn action_for(phase: Phase, event: Event) -> Action {
    match (phase, event) {
        (Phase::Traversing, Event::FileDiscovered) => Action::SubmitJob,
        (Phase::Traversing, Event::TraversalFinished) => Action::DrainPool,
        (Phase::Draining, Event::PoolDrained) => Action::SubmitTermination,
        (Phase::Terminating, Event::SignalObserved) => Action::Finish,
        _ => Action::Ignore,
    }
}

/// How far a phase is along the protocol.
pub open spec fn progress(phase: Phase) -> nat {
    match phase {
        Phase::Traversing => 0,
        Phase::Draining => 1,
        Phase::Terminating => 2,
        Phase::Done => 3,
    }
}

/// The phase reached from `start` after the first `n` of `events`.
pub open spec fn phase_after(start: Phase, events: Seq<Event>, n: nat) -> Phase
    decreases n,
{
    if n == 0 {
        start
    } else {
        next_phase(phase_after(start, events, (n - 1) as nat), events[n - 1])
    }
}

/// The action taken on the event at index `i`, in a run from `start`.
pub open spec fn action_at(start: Phase, events: Seq<Event>, i: nat) -> Action {
    action_for(phase_after(start, events, i), events[i as int])
}

/// The dispatcher of one run.
#[derive(Debug)]
pub struct Dispatcher {
    phase: Phase,
}

impl Dispatcher {
    /// The phase the run is in.
    pub closed spec fn view(&self) -> Phase {
        self.phase
    }

    /// A dispatcher at the start of a run.
    pub fn new() -> (dispatcher: Self)
        ensures
            dispatcher@ == Phase::Traversing,
    {
        Dispatcher { phase: Phase::Traversing }
    }

    /// The phase the run is in.
    pub fn phase(&self) -> (phase: Phase)
        ensures
            phase == self@,
    {
        self.phase
    }

    /// Whether the run is complete.
    pub fn is_done(&self) -> (done: bool)
        ensures
            done == (self@ == Phase::Done),
    {
        self.phase == Phase::Done
    }

    /// Takes the files that the walker found in one directory and returns
    /// those to submit as jobs: all of them, in order, while the traversal
    /// runs, and none after it has finished. The phase stays.
    pub fn discover(&mut self, files: Vec<String>) -> (jobs: Vec<String>)
        ensures
            final(self)@ == old(self)@,
            jobs@ == (if old(self)@ == Phase::Traversing {
                files@
            } else {
                Seq::<String>::empty()
            }),
    {
        let mut jobs: Vec<String> = Vec::new();
        let mut i: usize = 0;
        while i < files.len()
            invariant
                i <= files.len(),
                self@ == old(self)@,
                jobs@ == (if old(self)@ == Phase::Traversing {
                    files@.take(i as int)
                } else {
                    Seq::<String>::empty()
                }),
            decreases files.len() - i,
        {
            let action = self.handle(Event::FileDiscovered);
            if action == Action::SubmitJob {
                jobs.push(files[i].clone());
                assert(jobs@ =~= files@.take(i + 1));
            }
            i += 1;
        }
        assert(files@.take(i as int) =~= files@);
        jobs
    }

    /// Takes one event: moves to the next phase and says what to do.
    pub fn handle(&mut self, event: Event) -> (action: Action)
        ensures
            final(self)@ == next_phase(old(self)@, event),
            action == action_for(old(self)@, event),
    {
        let (phase, action) = step(self.phase, event);
        self.phase = phase;
        action
    }
}

/// One step of the protocol: the next phase and the action.
pub fn step(phase: Phase, event: Event) -> (next: (Phase, Action))
    ensures
        next.0 == next_phase(phase, event),
        next.1 == action_for(phase, event),
{
    match phase {
        Phase::Traversing => match event {
            Event::FileDiscovered => (Phase::Traversing, Action::SubmitJob),
            Event::TraversalFinished => (Phase::Draining, Action::DrainPool),
            _ => (phase, Action::Ignore),
        },
        Phase::Draining => match event {
            Event::PoolDrained => (Phase::Terminating, Action::SubmitTermination),
            _ => (phase, Action::Ignore),
        },
        Phase::Terminating => match event {
            Event::SignalObserved => (Phase::Done, Action::Finish),
            _ => (phase, Action::Ignore),
        },
        Phase::Done => (phase, Action::Ignore),
    }
}

/// A run never goes back: the phase after more events is at least as far along.
pub proof fn lemma_phase_never_goes_back(start: Phase, events: Seq<Event>, i: nat, j: nat)
    requires
        i <= j,
    ensures
        progress(phase_after(start, events, i)) <= progress(phase_after(start, events, j)),
    decreases j,
{
    if i < j {
        lemma_phase_never_goes_back(start, events, i, (j - 1) as nat);
    }
}

/// The termination signal is submitted at most once, and nothing is submitted
/// after it: in every run, from every phase and on every sequence of events,
/// an event after the one that submitted the signal submits neither a job nor
/// a second signal.
pub proof fn lemma_termination_is_last_submission(
    start: Phase,
    events: Seq<Event>,
    i: nat,
    j: nat,
)
    requires
        i < j < events.len(),
        action_at(start, events, i) == Action::SubmitTermination,
    ensures
        action_at(start, events, j) != Action::SubmitJob,
        action_at(start, events, j) != Action::SubmitTermination,
{
    assert(phase_after(start, events, i) == Phase::Draining);
    assert(phase_after(start, events, i + 1) == Phase::Terminating);
    lemma_phase_never_goes_back(start, events, i + 1, j);
}

/// The signal is submitted only once the pool has drained after the traversal
/// finished: every job was submitted before the event that submits the signal.
pub proof fn lemma_jobs_precede_termination(start: Phase, events: Seq<Event>, i: nat, j: nat)
    requires
        i < events.len(),
        j < events.len(),
        action_at(start, events, i) == Action::SubmitJob,
        action_at(start, events, j) == Action::SubmitTermination,
    ensures
        i < j,
        events[j as int] == Event::PoolDrained,
{
    if j <= i {
        lemma_phase_never_goes_back(start, events, j, i);
    }
}

/// A run that finishes has submitted the termination signal: where a run from
/// the start reaches the last phase, some earlier event submitted the signal.
pub proof fn lemma_finish_follows_termination(events: Seq<Event>, n: nat)
    requires
        n <= events.len(),
        phase_after(Phase::Traversing, events, n) == Phase::Done,
    ensures
        exists|i: nat| i < n && action_at(Phase::Traversing, events, i) == Action::SubmitTermination,
{
    lemma_submitted_before(events, n);
}

/// A run from the start that has passed the draining phase has submitted the
/// termination signal at some earlier event.
pub proof fn lemma_submitted_before(events: Seq<Event>, n: nat)
    requires
        n <= events.len(),
        progress(phase_after(Phase::Traversing, events, n)) >= 2,
    ensures
        exists|i: nat| i < n && action_at(Phase::Traversing, events, i) == Action::SubmitTermination,
    decreases n,
{
    let start = Phase::Traversing;
    if n > 0 {
        let before = phase_after(start, events, (n - 1) as nat);
        if progress(before) >= 2 {
            lemma_submitted_before(events, (n - 1) as nat);
            let i = choose|i: nat| i < n - 1 && action_at(start, events, i) == Action::SubmitTermination;
            assert(i < n && action_at(start, events, i) == Action::SubmitTermination);
        } else {
            let i = (n - 1) as nat;
            assert(action_at(start, events, i) == Action::SubmitTermination);
        }
    }
}

} // verus!
