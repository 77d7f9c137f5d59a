//! A model of all workers running the barrier protocol against one shared
//! counter, and the proof that they stay in lockstep.
//!
//! The model takes the workers' own state machine and lets any one worker
//! perform its pending action atomically; a schedule is the sequence of
//! worker ids in which that happens. Besides the counter it records how
//! often each worker has signalled, which is what the lockstep invariant is
//! stated over.

use vstd::prelude::*;
use crate::sync::{
    action_of, barrier_target, lemma_round_bounds, next_state, round_of, WorkerAction,
    WorkerEvent, WorkerState,
};

verus! {

/// The shared counter, every worker's state, and how many times each worker
/// has signalled so far.
pub struct BarrierModel {
    pub counter: nat,
    pub workers: Seq<WorkerState>,
    pub signals: Seq<nat>,
}

/// The sum of a sequence of counts.
pub open spec fn sum(counts: Seq<nat>) -> nat
    decreases counts.len(),
{
    if counts.len() == 0 {
        0
    } else {
        sum(counts.drop_last()) + counts.last()
    }
}

/// The model before any worker has done anything.
pub open spec fn initial(cores: nat) -> BarrierModel {
    BarrierModel {
        counter: 0,
        workers: Seq::new(cores, |i: int| WorkerState::Idle),
        signals: Seq::new(cores, |i: int| 0nat),
    }
}

/// The model after worker `k` has performed the action its state asks for
/// and has taken in the outcome.
pub open spec fn model_step(model: BarrierModel, k: int, cores: nat, total_frames: nat) -> BarrierModel {
    let state = model.workers[k];
    match action_of(state, cores, total_frames) {
        WorkerAction::LoadCounter => BarrierModel {
            counter: model.counter,
            workers: model.workers.update(
                k,
                next_state(state, WorkerEvent::CounterRead(model.counter as usize), cores),
            ),
            signals: model.signals,
        },
        WorkerAction::CopyBand { .. } => BarrierModel {
            counter: model.counter,
            workers: model.workers.update(k, next_state(state, WorkerEvent::BandCopied, cores)),
            signals: model.signals,
        },
        WorkerAction::IncrementCounter => BarrierModel {
            counter: model.counter + 1,
            workers: model.workers.update(
                k,
                next_state(state, WorkerEvent::CounterIncremented, cores),
            ),
            signals: model.signals.update(k, model.signals[k] + 1),
        },
    }
}

/// The model after the workers named in `schedule` have each taken one
/// step, in that order.
pub open spec fn run(cores: nat, total_frames: nat, schedule: Seq<int>) -> BarrierModel
    decreases schedule.len(),
{
    if schedule.len() == 0 {
        initial(cores)
    } else {
        model_step(run(cores, total_frames, schedule.drop_last()), schedule.last(), cores, total_frames)
    }
}

/// Whether every entry of `schedule` names a worker.
pub open spec fn valid_schedule(cores: nat, schedule: Seq<int>) -> bool {
    forall|i: int| 0 <= i < schedule.len() ==> 0 <= #[trigger] schedule[i] < cores
}

/// Whether no worker has signalled fewer times than worker `k`.
pub open spec fn is_behind_none(signals: Seq<nat>, k: int) -> bool {
    forall|j: int| 0 <= j < signals.len() ==> signals[k] <= #[trigger] signals[j]
}

/// What the state of worker `k` says about the signals.
pub open spec fn worker_in_step(model: BarrierModel, cores: nat, k: int) -> bool {
    match model.workers[k] {
        WorkerState::Idle => is_behind_none(model.signals, k),
        WorkerState::Copying { observed } => {
            &&& is_behind_none(model.signals, k)
            &&& round_of(observed as nat, cores) == model.signals[k]
        },
        WorkerState::Signalling { observed } => {
            &&& is_behind_none(model.signals, k)
            &&& round_of(observed as nat, cores) == model.signals[k]
        },
        WorkerState::Waiting { observed } => round_of(observed as nat, cores) + 1
            == model.signals[k],
    }
}

/// The lockstep invariant: the counter is the number of signals given; no
/// worker is more than one signal ahead of another; a worker that has not
/// yet signalled for its round is behind none, and the round it works on is
/// the number of signals it has given.
pub open spec fn lockstep(model: BarrierModel, cores: nat) -> bool {
    &&& cores >= 1
    &&& model.workers.len() == cores
    &&& model.signals.len() == cores
    &&& model.counter == sum(model.signals)
    &&& forall|j: int, k: int|
        0 <= j < cores && 0 <= k < cores ==> #[trigger] model.signals[j] <= (
        #[trigger] model.signals[k]) + 1
    &&& forall|k: int| 0 <= k < cores ==> #[trigger] worker_in_step(model, cores, k)
}

proof fn lemma_sum_update(counts: Seq<nat>, k: int, value: nat)
    requires
        0 <= k < counts.len(),
    ensures
        sum(counts.update(k, value)) == sum(counts) - counts[k] + value,
    decreases counts.len(),
{
    let updated = counts.update(k, value);
    if k == counts.len() - 1 {
        assert(updated.drop_last() =~= counts.drop_last());
    } else {
        assert(updated.drop_last() =~= counts.drop_last().update(k, value));
        lemma_sum_update(counts.drop_last(), k, value);
    }
}

proof fn lemma_sum_bounds(counts: Seq<nat>, low: nat, high: nat)
    requires
        forall|i: int| 0 <= i < counts.len() ==> low <= #[trigger] counts[i] <= high,
    ensures
        low * counts.len() <= sum(counts) <= high * counts.len(),
    decreases counts.len(),
{
    if counts.len() > 0 {
        lemma_sum_bounds(counts.drop_last(), low, high);
        let shorter = counts.drop_last().len();
        assert(low * counts.len() == low * shorter + low) by (nonlinear_arith)
            requires
                counts.len() == shorter + 1,
        ;
        assert(high * counts.len() == high * shorter + high) by (nonlinear_arith)
            requires
                counts.len() == shorter + 1,
        ;
    } else {
        assert(low * counts.len() == 0 && high * counts.len() == 0) by (nonlinear_arith)
            requires
                counts.len() == 0,
        ;
    }
}

proof fn lemma_sum_below(counts: Seq<nat>, high: nat, j: int)
    requires
        0 <= j < counts.len(),
        forall|i: int| 0 <= i < counts.len() ==> #[trigger] counts[i] <= high,
        counts[j] < high,
    ensures
        sum(counts) < high * counts.len(),
{
    let raised = counts.update(j, counts[j] + 1);
    lemma_sum_update(counts, j, counts[j] + 1);
    lemma_sum_bounds(raised, 0, high);
}

/// The model starts in lockstep.
pub proof fn lemma_initial_in_lockstep(cores: nat)
    requires
        cores >= 1,
    ensures
        lockstep(initial(cores), cores),
{
    let model = initial(cores);
    lemma_sum_bounds(model.signals, 0, 0);
    assert(0 * model.signals.len() == 0) by (nonlinear_arith);
    assert forall|k: int| 0 <= k < cores implies #[trigger] worker_in_step(model, cores, k) by {
        assert(is_behind_none(model.signals, k));
    }
}

/// A step of any worker keeps the model in lockstep, as long as the counter
/// has not run out of its machine range.
pub proof fn lemma_step_keeps_lockstep(model: BarrierModel, k: int, cores: nat, total_frames: nat)
    requires
        lockstep(model, cores),
        0 <= k < cores,
        model.counter <= usize::MAX,
    ensures
        lockstep(model_step(model, k, cores, total_frames), cores),
{
    let after = model_step(model, k, cores, total_frames);
    let signals = model.signals;
    assert(worker_in_step(model, cores, k));
    match model.workers[k] {
        WorkerState::Idle => {
            lemma_counter_in_round(model, k, cores);
            assert forall|i: int| 0 <= i < cores implies #[trigger] worker_in_step(
                after,
                cores,
                i,
            ) by {
                assert(worker_in_step(model, cores, i));
            }
        },
        WorkerState::Copying { observed } => {
            assert forall|i: int| 0 <= i < cores implies #[trigger] worker_in_step(
                after,
                cores,
                i,
            ) by {
                assert(worker_in_step(model, cores, i));
            }
        },
        WorkerState::Signalling { observed } => {
            lemma_sum_update(signals, k, signals[k] + 1);
            assert forall|i: int| 0 <= i < cores implies #[trigger] worker_in_step(
                after,
                cores,
                i,
            ) by {
                assert(worker_in_step(model, cores, i));
                if i != k && is_behind_none(signals, i) {
                    assert forall|j: int| 0 <= j < after.signals.len() implies after.signals[i]
                        <= #[trigger] after.signals[j] by {
                        assert(signals[i] <= signals[j]);
                    }
                }
            }
            assert forall|i: int, j: int| 0 <= i < cores && 0 <= j < cores implies #[trigger] after.signals[i]
                <= (#[trigger] after.signals[j]) + 1 by {
                assert(signals[i] <= signals[j] + 1);
                assert(signals[k] <= signals[j]);
                assert(signals[k] <= signals[i]);
            }
        },
        WorkerState::Waiting { observed } => {
            let target = barrier_target(observed as nat, cores);
            if model.counter >= target {
                assert(target == signals[k] * cores);
                assert forall|j: int| 0 <= j < signals.len() implies signals[k] <= #[trigger] signals[j] by {
                    if signals[j] < signals[k] {
                        assert forall|i: int| 0 <= i < signals.len() implies #[trigger] signals[i]
                            <= signals[k] by {
                            assert(signals[i] <= signals[j] + 1);
                        }
                        lemma_sum_below(signals, signals[k], j);
                    }
                }
                assert(is_behind_none(signals, k));
            }
            assert forall|i: int| 0 <= i < cores implies #[trigger] worker_in_step(
                after,
                cores,
                i,
            ) by {
                assert(worker_in_step(model, cores, i));
            }
        },
    }
}

/// While a worker that is behind none has not signalled for its round, the
/// counter lies in the round given by that worker's number of signals.
pub proof fn lemma_counter_in_round(model: BarrierModel, k: int, cores: nat)
    requires
        lockstep(model, cores),
        0 <= k < cores,
        is_behind_none(model.signals, k),
    ensures
        round_of(model.counter, cores) == model.signals[k],
{
    let signals = model.signals;
    let low = signals[k];
    assert forall|i: int| 0 <= i < signals.len() implies low <= #[trigger] signals[i] <= low + 1 by {
        assert(signals[i] <= signals[k] + 1);
    }
    lemma_sum_bounds(signals, low, low + 1);
    lemma_sum_below(signals, low + 1, k);
    lemma_round_bounds(model.counter, cores, low);
}

/// Every schedule leaves the model in lockstep, and the counter never
/// exceeds the number of steps taken.
pub proof fn lemma_run_in_lockstep(cores: nat, total_frames: nat, schedule: Seq<int>)
    requires
        cores >= 1,
        valid_schedule(cores, schedule),
        schedule.len() <= usize::MAX,
    ensures
        lockstep(run(cores, total_frames, schedule), cores),
        run(cores, total_frames, schedule).counter <= schedule.len(),
    decreases schedule.len(),
{
    if schedule.len() == 0 {
        lemma_initial_in_lockstep(cores);
    } else {
        let earlier = schedule.drop_last();
        assert(valid_schedule(cores, earlier)) by {
            assert forall|i: int| 0 <= i < earlier.len() implies 0 <= #[trigger] earlier[i]
                < cores by {
                assert(earlier[i] == schedule[i]);
            }
        }
        lemma_run_in_lockstep(cores, total_frames, earlier);
        assert(0 <= schedule.last() < cores) by {
            assert(schedule.last() == schedule[schedule.len() - 1]);
        }
        lemma_step_keeps_lockstep(
            run(cores, total_frames, earlier),
            schedule.last(),
            cores,
            total_frames,
        );
    }
}

/// No worker starts a round before every worker has signalled for the round
/// before it. Whatever the schedule so far: when an idle worker `k` reads
/// the counter, the round it derives its frame from is the number of
/// signals it has given itself, and every worker has given at least as
/// many.
pub proof fn lemma_round_starts_after_all_signalled(
    cores: nat,
    total_frames: nat,
    schedule: Seq<int>,
    k: int,
)
    requires
        cores >= 1,
        valid_schedule(cores, schedule),
        schedule.len() <= usize::MAX,
        0 <= k < cores,
        run(cores, total_frames, schedule).workers[k] == WorkerState::Idle,
    ensures
        ({
            let before = run(cores, total_frames, schedule);
            let after = model_step(before, k, cores, total_frames);
            &&& after.workers[k] == (WorkerState::Copying { observed: before.counter as usize })
            &&& before.counter as usize == before.counter
            &&& round_of(before.counter, cores) == before.signals[k]
            &&& forall|j: int|
                0 <= j < cores ==> #[trigger] before.signals[j] >= round_of(
                    before.counter,
                    cores,
                )
        }),
{
    let before = run(cores, total_frames, schedule);
    lemma_run_in_lockstep(cores, total_frames, schedule);
    assert(worker_in_step(before, cores, k));
    lemma_counter_in_round(before, k, cores);
}

/// No tearing: two workers that are writing a band at the same time write
/// bands of the same frame.
pub proof fn lemma_concurrent_copies_agree(
    cores: nat,
    total_frames: nat,
    schedule: Seq<int>,
    j: int,
    k: int,
)
    requires
        cores >= 1,
        valid_schedule(cores, schedule),
        schedule.len() <= usize::MAX,
        0 <= j < cores,
        0 <= k < cores,
        run(cores, total_frames, schedule).workers[j] is Copying,
        run(cores, total_frames, schedule).workers[k] is Copying,
    ensures
        action_of(run(cores, total_frames, schedule).workers[j], cores, total_frames) == action_of(
            run(cores, total_frames, schedule).workers[k],
            cores,
            total_frames,
        ),
{
    let model = run(cores, total_frames, schedule);
    lemma_run_in_lockstep(cores, total_frames, schedule);
    assert(worker_in_step(model, cores, j));
    assert(worker_in_step(model, cores, k));
    assert(model.signals[j] <= model.signals[k]);
    assert(model.signals[k] <= model.signals[j]);
}

/// While a worker writes its band for a round, every worker has finished
/// all earlier rounds: whatever the schedule so far, a worker that is
/// copying or about to signal works on the round given by its own number of
/// signals, and no worker has signalled fewer times.
pub proof fn lemma_earlier_rounds_are_finished(
    cores: nat,
    total_frames: nat,
    schedule: Seq<int>,
    k: int,
)
    requires
        cores >= 1,
        valid_schedule(cores, schedule),
        schedule.len() <= usize::MAX,
        0 <= k < cores,
    ensures
        ({
            let model = run(cores, total_frames, schedule);
            match model.workers[k] {
                WorkerState::Copying { observed } | WorkerState::Signalling { observed } => {
                    &&& round_of(observed as nat, cores) == model.signals[k]
                    &&& forall|j: int|
                        0 <= j < cores ==> #[trigger] model.signals[j] >= round_of(
                            observed as nat,
                            cores,
                        )
                },
                _ => true,
            }
        }),
{
    let model = run(cores, total_frames, schedule);
    lemma_run_in_lockstep(cores, total_frames, schedule);
    assert(worker_in_step(model, cores, k));
}

/// The counter never goes down, and a step raises it by at most one.
pub proof fn lemma_counter_only_grows(model: BarrierModel, k: int, cores: nat, total_frames: nat)
    ensures
        model.counter <= model_step(model, k, cores, total_frames).counter <= model.counter + 1,
{
}

} // verus!
