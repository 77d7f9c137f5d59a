use lockstep_video::sync::{
    frame_index, round_complete, WorkerAction, WorkerEvent, WorkerState,
};

#[test]
fn frame_index_is_round_modulo_frames() {
    assert_eq!(frame_index(0, 4, 3), 0);
    assert_eq!(frame_index(3, 4, 3), 0);
    assert_eq!(frame_index(4, 4, 3), 1);
    assert_eq!(frame_index(11, 4, 3), 2);
    assert_eq!(frame_index(12, 4, 3), 0);
    assert_eq!(frame_index(usize::MAX, 1, 1), 0);
    assert_eq!(frame_index(29, 1, 10), 9);
}

#[test]
fn round_completes_at_the_next_multiple_of_cores() {
    assert!(!round_complete(0, 0, 4));
    assert!(!round_complete(0, 3, 4));
    assert!(round_complete(0, 4, 4));
    assert!(round_complete(3, 4, 4));
    assert!(!round_complete(4, 7, 4));
    assert!(round_complete(5, 8, 4));
    assert!(round_complete(5, 100, 4));
    assert!(!round_complete(usize::MAX, usize::MAX, 1));
    assert!(round_complete(7, 8, 1));
}

#[test]
fn worker_walks_through_one_round() {
    let cores = 2;
    let frames = 5;
    let mut state = WorkerState::new();
    assert_eq!(state, WorkerState::Idle);
    assert_eq!(state.action(cores, frames), WorkerAction::LoadCounter);

    state = state.step(WorkerEvent::CounterRead(6), cores);
    assert_eq!(state, WorkerState::Copying { observed: 6 });
    assert_eq!(state.action(cores, frames), WorkerAction::CopyBand { frame_index: 3 });

    state = state.step(WorkerEvent::BandCopied, cores);
    assert_eq!(state, WorkerState::Signalling { observed: 6 });
    assert_eq!(state.action(cores, frames), WorkerAction::IncrementCounter);

    state = state.step(WorkerEvent::CounterIncremented, cores);
    assert_eq!(state, WorkerState::Waiting { observed: 6 });
    assert_eq!(state.action(cores, frames), WorkerAction::LoadCounter);

    state = state.step(WorkerEvent::CounterRead(7), cores);
    assert_eq!(state, WorkerState::Waiting { observed: 6 });

    state = state.step(WorkerEvent::CounterRead(8), cores);
    assert_eq!(state, WorkerState::Idle);
}

#[test]
fn worker_ignores_events_that_do_not_answer_its_action() {
    let idle = WorkerState::Idle;
    assert_eq!(idle.step(WorkerEvent::BandCopied, 2), idle);
    assert_eq!(idle.step(WorkerEvent::CounterIncremented, 2), idle);
    let copying = WorkerState::Copying { observed: 1 };
    assert_eq!(copying.step(WorkerEvent::CounterRead(9), 2), copying);
    assert_eq!(copying.step(WorkerEvent::CounterIncremented, 2), copying);
    let signalling = WorkerState::Signalling { observed: 1 };
    assert_eq!(signalling.step(WorkerEvent::CounterRead(9), 2), signalling);
    assert_eq!(signalling.step(WorkerEvent::BandCopied, 2), signalling);
    let waiting = WorkerState::Waiting { observed: 1 };
    assert_eq!(waiting.step(WorkerEvent::BandCopied, 2), waiting);
    assert_eq!(waiting.step(WorkerEvent::CounterIncremented, 2), waiting);
}

/// Runs `cores` workers against one counter; `pick` chooses who takes the
/// next step. Checks at every counter read of an idle worker that all
/// workers have signalled for every earlier round, and at every moment that
/// all workers that are copying copy the same frame.
fn simulate(cores: usize, frames: usize, steps: usize, pick: &dyn Fn(usize) -> usize) -> usize {
    let mut counter: usize = 0;
    let mut workers = vec![WorkerState::new(); cores];
    let mut signals = vec![0usize; cores];
    let mut rounds_started = 0usize;
    for step in 0..steps {
        let k = pick(step) % cores;
        let event = match workers[k].action(cores, frames) {
            WorkerAction::LoadCounter => WorkerEvent::CounterRead(counter),
            WorkerAction::CopyBand { frame_index } => {
                assert_eq!(frame_index, signals[k] % frames);
                WorkerEvent::BandCopied
            }
            WorkerAction::IncrementCounter => {
                counter += 1;
                signals[k] += 1;
                WorkerEvent::CounterIncremented
            }
        };
        let was_idle = workers[k] == WorkerState::Idle;
        workers[k] = workers[k].step(event, cores);
        if was_idle {
            let round = counter / cores;
            assert_eq!(round, signals[k]);
            for j in 0..cores {
                assert!(signals[j] >= round, "worker {} started round {} early", k, round);
            }
            rounds_started += 1;
        }
        let copying: Vec<usize> = workers
            .iter()
            .filter_map(|w| match w.action(cores, frames) {
                WorkerAction::CopyBand { frame_index } => Some(frame_index),
                _ => None,
            })
            .collect();
        for pair in copying.windows(2) {
            assert_eq!(pair[0], pair[1]);
        }
        assert_eq!(counter, signals.iter().sum::<usize>());
    }
    rounds_started
}

#[test]
fn barrier_holds_under_round_robin() {
    for cores in 1usize..6 {
        let started = simulate(cores, 3, 4000, &|step| step);
        assert!(started >= cores);
    }
}

#[test]
fn barrier_holds_when_one_worker_races_ahead() {
    // Worker 0 gets nine of every ten steps.
    let started = simulate(4, 7, 20_000, &|step| if step % 10 == 9 { step / 10 } else { 0 });
    assert!(started >= 4);
}

#[test]
fn barrier_holds_under_a_scrambled_schedule() {
    let started = simulate(5, 2, 50_000, &|step| {
        let mut x = step as u64 ^ 0x9E37_79B9_7F4A_7C15;
        x = x.wrapping_mul(0xBF58_476D_1CE4_E5B9);
        x ^= x >> 29;
        (x % 1_000_003) as usize
    });
    assert!(started >= 5);
}

#[test]
fn single_worker_never_waits() {
    let mut counter = 0usize;
    let mut state = WorkerState::new();
    let mut shown = Vec::new();
    for _ in 0..40 {
        let event = match state.action(1, 3) {
            WorkerAction::LoadCounter => WorkerEvent::CounterRead(counter),
            WorkerAction::CopyBand { frame_index } => {
                shown.push(frame_index);
                WorkerEvent::BandCopied
            }
            WorkerAction::IncrementCounter => {
                counter += 1;
                WorkerEvent::CounterIncremented
            }
        };
        state = state.step(event, 1);
    }
    // A round takes four steps: read, copy, signal, and one read that
    // finds the round over.
    assert_eq!(shown, vec![0, 1, 2, 0, 1, 2, 0, 1, 2, 0]);
    assert_eq!(counter, 10);
}
