//! The barrier protocol of one worker.
//!
//! All workers share one counter that only ever grows. A worker reads the
//! counter, derives the frame of the current round from it, writes its band
//! of that frame, adds one to the counter, and then re-reads the counter
//! until every worker has added its one for the round. The decisions live
//! here as a state machine; whoever drives it performs the action a state
//! asks for and hands the outcome back as an event.

use vstd::prelude::*;

verus! {

/// The round that a counter value belongs to: one round takes one signal
/// from each core.
pub open spec fn round_of(count: nat, cores: nat) -> nat {
    count / cores
}

/// The frame shown in the round that `count` belongs to. Playback loops by
/// taking the round modulo the number of frames.
pub open spec fn frame_index_of(count: nat, cores: nat, total_frames: nat) -> nat {
    round_of(count, cores) % total_frames
}

/// The counter value at which the round that `count` belongs to is over:
/// every core has signalled.
pub open spec fn barrier_target(count: nat, cores: nat) -> nat {
    (round_of(count, cores) + 1) * cores
}

/// A counter value lies in round `round` exactly when it lies between that
/// round's first value and the round's target.
pub proof fn lemma_round_bounds(count: nat, cores: nat, round: nat)
    requires
        cores > 0,
    ensures
        round_of(count, cores) == round <==> round * cores <= count < (round + 1) * cores,
        round_of(count, cores) >= round <==> count >= round * cores,
{
    let q = count / cores;
    assert(q * cores <= count < (q + 1) * cores) by (nonlinear_arith)
        requires
            q == count / cores,
            cores > 0,
    ;
    if q < round {
        assert((q + 1) * cores <= round * cores) by (nonlinear_arith)
            requires
                q + 1 <= round,
        ;
    }
    if q > round {
        assert((round + 1) * cores <= q * cores) by (nonlinear_arith)
            requires
                round + 1 <= q,
        ;
    }
    if q >= round {
        assert(round * cores <= q * cores) by (nonlinear_arith)
            requires
                round <= q,
        ;
    }
}

/// The frame to show in the round that the counter value `count` belongs to.
pub fn frame_index(count: usize, cores: usize, total_frames: usize) -> (index: usize)
    requires
        cores > 0,
        total_frames > 0,
    ensures
        index == frame_index_of(count as nat, cores as nat, total_frames as nat),
        index < total_frames,
{
    (count / cores) % total_frames
}

/// Whether the round that began when the counter read `observed` is over
/// now that the counter reads `now`.
pub fn round_complete(observed: usize, now: usize, cores: usize) -> (done: bool)
    requires
        cores > 0,
    ensures
        done == (now >= barrier_target(observed as nat, cores as nat)),
{
    proof {
        lemma_round_bounds(now as nat, cores as nat, round_of(observed as nat, cores as nat) + 1);
    }
    now / cores > observed / cores
}

/// Where a worker stands in its current round.
#[derive(Clone, Copy, Debug, PartialEq, Eq)]
pub enum WorkerState {
    /// Between rounds: the next thing to do is to read the counter.
    Idle,
    /// Writing the band of the round that began when the counter read
    /// `observed`.
    Copying { observed: usize },
    /// The band is written; the next thing to do is to add one to the
    /// counter.
    Signalling { observed: usize },
    /// Signalled; re-reading the counter until the round is over.
    Waiting { observed: usize },
}

/// What a worker has to do next.
#[derive(Clone, Copy, Debug, PartialEq, Eq)]
pub enum WorkerAction {
    /// Read the shared counter with acquire ordering.
    LoadCounter,
    /// Write this worker's band of frame `frame_index` to its range of the
    /// display surface.
    CopyBand { frame_index: usize },
    /// Add one to the shared counter with sequentially consistent ordering.
    IncrementCounter,
}

/// What happened when the action was performed.
#[derive(Clone, Copy, Debug, PartialEq, Eq)]
pub enum WorkerEvent {
    /// The counter was read and had this value.
    CounterRead(usize),
    /// The band has been written.
    BandCopied,
    /// One has been added to the counter.
    CounterIncremented,
}

/// The action that a state asks for.
pub open spec fn action_of(state: WorkerState, cores: nat, total_frames: nat) -> WorkerAction {
    match state {
        WorkerState::Idle => WorkerAction::LoadCounter,
        WorkerState::Copying { observed } => WorkerAction::CopyBand {
            frame_index: frame_index_of(observed as nat, cores, total_frames) as usize,
        },
        WorkerState::Signalling { .. } => WorkerAction::IncrementCounter,
        WorkerState::Waiting { .. } => WorkerAction::LoadCounter,
    }
}

/// The state after `event`. An event that does not answer the state's
/// action leaves the state as it is.
pub open spec fn next_state(state: WorkerState, event: WorkerEvent, cores: nat) -> WorkerState {
    match (state, event) {
        (WorkerState::Idle, WorkerEvent::CounterRead(count)) => WorkerState::Copying {
            observed: count,
        },
        (WorkerState::Copying { observed }, WorkerEvent::BandCopied) => WorkerState::Signalling {
            observed,
        },
        (
            WorkerState::Signalling { observed },
            WorkerEvent::CounterIncremented,
        ) => WorkerState::Waiting { observed },
        (WorkerState::Waiting { observed }, WorkerEvent::CounterRead(count)) => {
            if count >= barrier_target(observed as nat, cores) {
                WorkerState::Idle
            } else {
                state
            }
        },
        _ => state,
    }
}

impl WorkerState {
    /// The state in which every worker starts.
    pub fn new() -> (state: WorkerState)
        ensures
            state == WorkerState::Idle,
    {
        WorkerState::Idle
    }

    /// What to do next in this state.
    pub fn action(&self, cores: usize, total_frames: usize) -> (action: WorkerAction)
        requires
            cores > 0,
            total_frames > 0,
        ensures
            action == action_of(*self, cores as nat, total_frames as nat),
    {
        match *self {
            WorkerState::Idle => WorkerAction::LoadCounter,
            WorkerState::Copying { observed } => WorkerAction::CopyBand {
                frame_index: frame_index(observed, cores, total_frames),
            },
            WorkerState::Signalling { .. } => WorkerAction::IncrementCounter,
            WorkerState::Waiting { .. } => WorkerAction::LoadCounter,
        }
    }

    /// Takes in the outcome of the action and moves to the next state.
    pub fn step(self, event: WorkerEvent, cores: usize) -> (next: WorkerState)
        requires
            cores > 0,
        ensures
            next == next_state(self, event, cores as nat),
    {
        match (self, event) {
            (WorkerState::Idle, WorkerEvent::CounterRead(count)) => WorkerState::Copying {
                observed: count,
            },
            (WorkerState::Copying { observed }, WorkerEvent::BandCopied) => {
                WorkerState::Signalling { observed }
            },
            (WorkerState::Signalling { observed }, WorkerEvent::CounterIncremented) => {
                WorkerState::Waiting { observed }
            },
            (WorkerState::Waiting { observed }, WorkerEvent::CounterRead(count)) => {
                if round_complete(observed, count, cores) {
                    WorkerState::Idle
                } else {
                    self
                }
            },
            _ => self,
        }
    }
}

} // verus!
