//! An executable run of the barrier model: any number of workers, one
//! counter, and a schedule that says who takes the next step. It drives the
//! workers' own state machine and keeps, for every worker, the count of
//! signals that lockstep is stated over.

use vstd::prelude::*;
use crate::barrier::{
    initial, lemma_initial_in_lockstep, lemma_run_in_lockstep, lemma_step_keeps_lockstep,
    lockstep, model_step, run, sum, valid_schedule, BarrierModel,
};
use crate::sync::{WorkerAction, WorkerEvent, WorkerState};

verus! {

/// The workers of one playback and the counter they share.
#[derive(Debug)]
pub struct Simulation {
    /// Number of workers.
    pub cores: usize,
    /// Number of frames that playback loops over.
    pub total_frames: usize,
    /// The shared counter.
    pub counter: usize,
    /// The state of every worker.
    pub workers: Vec<WorkerState>,
    /// How many times every worker has signalled.
    pub signals: Vec<usize>,
}

/// A schedule as the model takes it.
pub open spec fn schedule_of(schedule: Seq<usize>) -> Seq<int> {
    schedule.map_values(|k: usize| k as int)
}

impl View for Simulation {
    type V = BarrierModel;

    open spec fn view(&self) -> BarrierModel {
        BarrierModel {
            counter: self.counter as nat,
            workers: self.workers@,
            signals: self.signals@.map_values(|count: usize| count as nat),
        }
    }
}

/// No single count exceeds the sum of all.
proof fn lemma_sum_covers(counts: Seq<nat>, k: int)
    requires
        0 <= k < counts.len(),
    ensures
        counts[k] <= sum(counts),
    decreases counts.len(),
{
    if k < counts.len() - 1 {
        lemma_sum_covers(counts.drop_last(), k);
    }
}

impl Simulation {
    /// Whether the simulation is in lockstep.
    pub open spec fn wf(&self) -> bool {
        &&& self.cores >= 1
        &&& self.total_frames >= 1
        &&& lockstep(self@, self.cores as nat)
    }

    /// All workers idle, the counter at zero.
    pub fn new(cores: usize, total_frames: usize) -> (simulation: Self)
        requires
            cores >= 1,
            total_frames >= 1,
        ensures
            simulation.wf(),
            simulation.cores == cores,
            simulation.total_frames == total_frames,
            simulation@ == initial(cores as nat),
    {
        let mut workers: Vec<WorkerState> = Vec::new();
        let mut signals: Vec<usize> = Vec::new();
        let mut i: usize = 0;
        while i < cores
            invariant
                i <= cores,
                workers@.len() == i,
                signals@.len() == i,
                forall|k: int| 0 <= k < i ==> workers@[k] == WorkerState::Idle,
                forall|k: int| 0 <= k < i ==> signals@[k] == 0,
            decreases cores - i,
        {
            workers.push(WorkerState::new());
            signals.push(0);
            i += 1;
        }
        let simulation = Simulation { cores, total_frames, counter: 0, workers, signals };
        proof {
            assert(simulation@.workers =~= initial(cores as nat).workers);
            assert(simulation@.signals =~= initial(cores as nat).signals);
            lemma_initial_in_lockstep(cores as nat);
        }
        simulation
    }

    /// Lets worker `k` perform the action its state asks for, against the
    /// shared counter, and take in the outcome.
    pub fn step(&mut self, k: usize)
        requires
            old(self).wf(),
            k < old(self).cores,
            old(self).counter < usize::MAX,
        ensures
            final(self).wf(),
            final(self).cores == old(self).cores,
            final(self).total_frames == old(self).total_frames,
            final(self)@ == model_step(
                old(self)@,
                k as int,
                old(self).cores as nat,
                old(self).total_frames as nat,
            ),
    {
        let ghost before = self@;
        let cores = self.cores;
        let state = self.workers[k];
        match state.action(cores, self.total_frames) {
            WorkerAction::LoadCounter => {
                let next = state.step(WorkerEvent::CounterRead(self.counter), cores);
                self.workers.set(k, next);
                assert(self@.signals =~= before.signals);
            },
            WorkerAction::CopyBand { .. } => {
                let next = state.step(WorkerEvent::BandCopied, cores);
                self.workers.set(k, next);
                assert(self@.signals =~= before.signals);
            },
            WorkerAction::IncrementCounter => {
                proof {
                    lemma_sum_covers(before.signals, k as int);
                }
                let next = state.step(WorkerEvent::CounterIncremented, cores);
                self.counter = self.counter + 1;
                let signalled = self.signals[k];
                self.signals.set(k, signalled + 1);
                self.workers.set(k, next);
                assert(self@.signals =~= before.signals.update(
                    k as int,
                    before.signals[k as int] + 1,
                ));
            },
        }
        proof {
            lemma_step_keeps_lockstep(before, k as int, cores as nat, self.total_frames as nat);
        }
    }

    /// Runs a whole schedule from the start.
    pub fn run(cores: usize, total_frames: usize, schedule: &[usize]) -> (simulation: Self)
        requires
            cores >= 1,
            total_frames >= 1,
            forall|i: int| 0 <= i < schedule@.len() ==> schedule@[i] < cores,
        ensures
            simulation.wf(),
            simulation.cores == cores,
            simulation.total_frames == total_frames,
            simulation@ == run(cores as nat, total_frames as nat, schedule_of(schedule@)),
    {
        let mut simulation = Simulation::new(cores, total_frames);
        let steps: usize = schedule.len();
        let mut i: usize = 0;
        assert(schedule_of(schedule@).take(0) =~= Seq::<int>::empty());
        while i < steps
            invariant
                i <= steps,
                steps == schedule@.len(),
                forall|j: int| 0 <= j < schedule@.len() ==> schedule@[j] < cores,
                simulation.wf(),
                simulation.cores == cores,
                simulation.total_frames == total_frames,
                simulation@ == run(
                    cores as nat,
                    total_frames as nat,
                    schedule_of(schedule@).take(i as int),
                ),
            decreases steps - i,
        {
            proof {
                let done = schedule_of(schedule@).take(i as int);
                assert(valid_schedule(cores as nat, done));
                lemma_run_in_lockstep(cores as nat, total_frames as nat, done);
                let next = schedule_of(schedule@).take(i + 1);
                assert(next.drop_last() =~= done);
                assert(next.last() == schedule@[i as int] as int);
            }
            simulation.step(schedule[i]);
            i += 1;
        }
        assert(schedule_of(schedule@).take(i as int) =~= schedule_of(schedule@));
        simulation
    }
}

} // verus!
