//! The shutdown protocol as a whole: the dispatcher, the jobs of the pool and
//! the channel together, under every order in which jobs complete.
//!
//! The model takes from the pool that it reports itself drained only when no
//! job is running, from a job that it sends its record before it completes,
//! from the channel that it keeps the order of sends, and from the writer that
//! it reports the signal only once it has received it.

use crate::dispatch::{action_for, next_phase, progress, Action, Event, Phase};
use crate::traversal::found_after;
use crate::tree::{file_count, has_no_marked, lemma_run_finds_every_file, trace, Tree};
use vstd::prelude::*;

verus! {

/// What a job puts on the channel.
pub enum Parcel {
    /// The record of one hashed file.
    Record,
    /// The termination signal.
    Termination,
}

/// One thing that happens during a run.
pub enum Move {
    /// The dispatcher handles an event.
    Dispatch(Event),
    /// A checksum job sends its record and completes.
    JobSucceeds,
    /// A checksum job fails to read its file and completes without a record.
    JobFails,
    /// The job that carries the termination signal sends it and completes.
    SignalJobRuns,
}

/// A run as the protocol sees it.
pub struct RunState {
    /// The dispatcher's phase.
    pub phase: Phase,
    /// The checksum jobs that were submitted, one for each file discovered.
    pub submitted: nat,
    /// The checksum jobs that were submitted and have not completed.
    pub running: nat,
    /// The checksum jobs that completed without a record.
    pub failed: nat,
    /// Whether the job with the termination signal is submitted and has not run.
    pub signal_queued: bool,
    /// What was sent on the channel, in order.
    pub channel: Seq<Parcel>,
}

/// The state in which a run starts.
pub open spec fn initial_state() -> RunState {
    RunState {
        phase: Phase::Traversing,
        submitted: 0,
        running: 0,
        failed: 0,
        signal_queued: false,
        channel: Seq::empty(),
    }
}

/// Whether a move can happen in a state: the pool is reported drained only
/// when no job is running, the signal is reported seen only when it is on the
/// channel, and only a job that exists can complete.
pub open spec fn is_enabled(state: RunState, step: Move) -> bool {
    match step {
        Move::Dispatch(Event::PoolDrained) => state.running == 0,
        Move::Dispatch(Event::SignalObserved) => !has_no_signal(state.channel),
        Move::Dispatch(_) => true,
        Move::JobSucceeds => state.running > 0,
        Move::JobFails => state.running > 0,
        Move::SignalJobRuns => state.signal_queued,
    }
}

/// The state after a move.
pub open spec fn after_move(state: RunState, step: Move) -> RunState {
    match step {
        Move::Dispatch(event) => {
            let action = action_for(state.phase, event);
            let jobs: nat = if action == Action::SubmitJob {
                1
            } else {
                0
            };
            RunState {
                phase: next_phase(state.phase, event),
                submitted: state.submitted + jobs,
                running: state.running + jobs,
                signal_queued: state.signal_queued || action == Action::SubmitTermination,
                ..state
            }
        },
        Move::JobSucceeds => RunState {
            running: (state.running - 1) as nat,
            channel: state.channel.push(Parcel::Record),
            ..state
        },
        Move::JobFails => RunState {
            running: (state.running - 1) as nat,
            failed: state.failed + 1,
            ..state
        },
        Move::SignalJobRuns => RunState {
            signal_queued: false,
            channel: state.channel.push(Parcel::Termination),
            ..state
        },
    }
}

/// The state after the first `n` of `moves`, from the start of a run.
pub open spec fn state_after(moves: Seq<Move>, n: nat) -> RunState
    decreases n,
{
    if n == 0 {
        initial_state()
    } else {
        after_move(state_after(moves, (n - 1) as nat), moves[n - 1])
    }
}

/// Whether each of the first `n` moves could happen when it did.
pub open spec fn is_run(moves: Seq<Move>, n: nat) -> bool {
    forall|k: nat| k < n ==> is_enabled(#[trigger] state_after(moves, k), moves[k as int])
}

/// The number of records on a channel.
pub open spec fn records_on(channel: Seq<Parcel>) -> nat
    decreases channel.len(),
{
    if channel.len() == 0 {
        0
    } else {
        let before = records_on(channel.drop_last());
        match channel.last() {
            Parcel::Record => before + 1,
            Parcel::Termination => before,
        }
    }
}

/// The number of termination signals on a channel.
pub open spec fn signals_on(channel: Seq<Parcel>) -> nat
    decreases channel.len(),
{
    if channel.len() == 0 {
        0
    } else {
        let before = signals_on(channel.drop_last());
        match channel.last() {
            Parcel::Record => before,
            Parcel::Termination => before + 1,
        }
    }
}

/// The moves that a run still has to make at most before it is done, once the
/// traversal has finished.
pub open spec fn work_left(state: RunState) -> nat {
    let queued: nat = if state.signal_queued {
        1
    } else {
        0
    };
    (state.running + queued + 2 * (3 - progress(state.phase))) as nat
}

/// Whether a channel holds no termination signal.
pub open spec fn has_no_signal(channel: Seq<Parcel>) -> bool {
    forall|i: int| 0 <= i < channel.len() ==> channel[i] != Parcel::Termination
}

/// Whether the termination signal, if the channel holds it, is the last thing
/// on the channel: then it is there once, and after every record.
pub open spec fn signal_is_last(channel: Seq<Parcel>) -> bool {
    forall|i: int|
        0 <= i < channel.len() && channel[i] == Parcel::Termination ==> i == channel.len() - 1
}

/// What holds of every state of a run. Before the pool has drained, no signal
/// is queued or sent. After that no checksum job is running, and the signal is
/// either still queued and not sent, or sent once as the last parcel; in a run
/// that is done it was sent.
pub open spec fn is_sound(state: RunState) -> bool {
    if progress(state.phase) <= 1 {
        !state.signal_queued && has_no_signal(state.channel)
    } else {
        &&& state.running == 0
        &&& state.phase == Phase::Done ==> !state.signal_queued
        &&& state.signal_queued ==> has_no_signal(state.channel)
        &&& !state.signal_queued ==> state.channel.len() > 0 && state.channel.last()
            == Parcel::Termination && has_no_signal(state.channel.drop_last())
    }
}

/// A move that can happen keeps a sound state sound.
pub proof fn lemma_move_keeps_soundness(state: RunState, step: Move)
    requires
        is_sound(state),
        is_enabled(state, step),
    ensures
        is_sound(after_move(state, step)),
{
    let next = after_move(state, step);
    match step {
        Move::Dispatch(event) => {},
        Move::JobSucceeds => {
            assert(progress(state.phase) <= 1);
            assert(next.channel.drop_last() =~= state.channel);
        },
        Move::JobFails => {},
        Move::SignalJobRuns => {
            assert(progress(state.phase) >= 2);
            assert(next.channel.drop_last() =~= state.channel);
        },
    }
}

/// Every state of a run is sound.
pub proof fn lemma_runs_are_sound(moves: Seq<Move>, n: nat)
    requires
        n <= moves.len(),
        is_run(moves, n),
    ensures
        is_sound(state_after(moves, n)),
    decreases n,
{
    if n > 0 {
        let before = (n - 1) as nat;
        assert(is_run(moves, before));
        lemma_runs_are_sound(moves, before);
        assert(is_enabled(state_after(moves, before), moves[before as int]));
        lemma_move_keeps_soundness(state_after(moves, before), moves[before as int]);
    }
}

/// The termination signal reaches the writer at most once, and after every
/// record of the run, in whatever order the jobs complete: at every point of
/// every run, a signal on the channel is the last parcel on it.
pub proof fn lemma_signal_comes_once_and_last(moves: Seq<Move>, n: nat)
    requires
        n <= moves.len(),
        is_run(moves, n),
    ensures
        signal_is_last(state_after(moves, n).channel),
{
    lemma_runs_are_sound(moves, n);
    let state = state_after(moves, n);
    if progress(state.phase) >= 2 && !state.signal_queued {
        assert forall|i: int|
            0 <= i < state.channel.len() && state.channel[i]
                == Parcel::Termination implies i == state.channel.len() - 1 by {
            if i < state.channel.len() - 1 {
                assert(state.channel.drop_last()[i] == state.channel[i]);
            }
        }
    }
}

/// Once the signal is on the channel nothing more is sent: no job is running
/// and none is queued, so no later move can add a parcel.
pub proof fn lemma_nothing_follows_the_signal(moves: Seq<Move>, n: nat)
    requires
        n < moves.len(),
        is_run(moves, n + 1),
        !has_no_signal(state_after(moves, n).channel),
    ensures
        state_after(moves, n + 1).channel == state_after(moves, n).channel,
{
    assert(is_run(moves, n));
    lemma_runs_are_sound(moves, n);
    assert(is_enabled(state_after(moves, n), moves[n as int]));
}

/// Every discovered file is accounted for once: at every point of a run, the
/// jobs submitted are those still running, those that failed and those whose
/// record is on the channel.
pub proof fn lemma_every_job_is_accounted_for(moves: Seq<Move>, n: nat)
    requires
        n <= moves.len(),
        is_run(moves, n),
    ensures
        ({
            let state = state_after(moves, n);
            state.submitted == state.running + state.failed + records_on(state.channel)
        }),
    decreases n,
{
    if n > 0 {
        let before = (n - 1) as nat;
        let state = state_after(moves, before);
        assert(is_run(moves, before));
        lemma_every_job_is_accounted_for(moves, before);
        assert(is_enabled(state, moves[before as int]));
        let next = after_move(state, moves[before as int]);
        match moves[before as int] {
            Move::JobSucceeds => {
                assert(next.channel.drop_last() =~= state.channel);
            },
            Move::SignalJobRuns => {
                assert(next.channel.drop_last() =~= state.channel);
            },
            _ => {},
        }
    }
}

/// When the signal is on the channel, every file that was discovered has its
/// record before it or has failed: each has exactly one of the two outcomes.
pub proof fn lemma_signal_closes_a_complete_run(moves: Seq<Move>, n: nat)
    requires
        n <= moves.len(),
        is_run(moves, n),
        !has_no_signal(state_after(moves, n).channel),
    ensures
        ({
            let state = state_after(moves, n);
            state.running == 0 && state.submitted == state.failed + records_on(state.channel)
        }),
{
    lemma_runs_are_sound(moves, n);
    lemma_every_job_is_accounted_for(moves, n);
}

/// A channel without a signal counts none.
pub proof fn lemma_no_signal_counts_none(channel: Seq<Parcel>)
    requires
        has_no_signal(channel),
    ensures
        signals_on(channel) == 0,
    decreases channel.len(),
{
    if channel.len() > 0 {
        let front = channel.drop_last();
        assert forall|i: int| 0 <= i < front.len() implies front[i] != Parcel::Termination by {
            assert(front[i] == channel[i]);
        }
        lemma_no_signal_counts_none(front);
        assert(channel.last() == channel[channel.len() - 1]);
    }
}

/// A run that is done has delivered the termination signal exactly once, as
/// the last parcel, and every file that was discovered has its record before
/// it or has failed.
pub proof fn lemma_finished_run_has_one_signal(moves: Seq<Move>, n: nat)
    requires
        n <= moves.len(),
        is_run(moves, n),
        state_after(moves, n).phase == Phase::Done,
    ensures
        ({
            let state = state_after(moves, n);
            &&& signals_on(state.channel) == 1
            &&& state.channel.len() > 0
            &&& state.channel.last() == Parcel::Termination
            &&& state.running == 0
            &&& state.submitted == state.failed + records_on(state.channel)
        }),
{
    lemma_runs_are_sound(moves, n);
    lemma_every_job_is_accounted_for(moves, n);
    lemma_no_signal_counts_none(state_after(moves, n).channel.drop_last());
}

/// A run cannot get stuck short of its end: once the traversal has finished,
/// in every state that is not done some move can happen that leaves less to
/// do. So the pool drains, the signal is queued, sent and seen, after at most
/// `work_left` moves.
pub proof fn lemma_run_can_go_on(state: RunState)
    requires
        is_sound(state),
        progress(state.phase) >= 1,
        state.phase != Phase::Done,
    ensures
        exists|step: Move| #[trigger]
            is_enabled(state, step) && is_sound(after_move(state, step)) && work_left(
                after_move(state, step),
            ) < work_left(state),
{
    let step = if state.running > 0 {
        Move::JobSucceeds
    } else if state.phase == Phase::Draining {
        Move::Dispatch(Event::PoolDrained)
    } else if state.signal_queued {
        Move::SignalJobRuns
    } else {
        Move::Dispatch(Event::SignalObserved)
    };
    if state.phase == Phase::Terminating && !state.signal_queued {
        assert(state.channel[state.channel.len() - 1] == Parcel::Termination);
    }
    assert(is_enabled(state, step));
    lemma_move_keeps_soundness(state, step);
    assert(work_left(after_move(state, step)) < work_left(state));
}

/// From the walker to the writer: over a tree without marked directories, in
/// a run that submitted one job for each file the walker found, in which no
/// job failed and the signal was sent, the channel holds as many records as
/// the tree holds regular files, and the signal after all of them.
pub proof fn lemma_every_file_has_its_record(
    root: Tree,
    marker: Seq<char>,
    moves: Seq<Move>,
    n: nat,
)
    requires
        has_no_marked(root, marker),
        n <= moves.len(),
        is_run(moves, n),
        state_after(moves, n).submitted == found_after(
            root.entry.path,
            marker,
            trace(root, marker),
            trace(root, marker).len(),
        ).len(),
        state_after(moves, n).failed == 0,
        !has_no_signal(state_after(moves, n).channel),
    ensures
        records_on(state_after(moves, n).channel) == file_count(root),
        signal_is_last(state_after(moves, n).channel),
{
    lemma_run_finds_every_file(root, marker);
    lemma_signal_closes_a_complete_run(moves, n);
    lemma_signal_comes_once_and_last(moves, n);
}

} // verus!
