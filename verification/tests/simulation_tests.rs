use lockstep_video::simulation::Simulation;
use lockstep_video::sync::WorkerState;

fn scramble(step: usize) -> usize {
    let mut x = step as u64 ^ 0x9E37_79B9_7F4A_7C15;
    x = x.wrapping_mul(0xBF58_476D_1CE4_E5B9);
    x ^= x >> 29;
    (x % 1_000_003) as usize
}

#[test]
fn simulation_starts_idle_at_zero() {
    let simulation = Simulation::new(3, 5);
    assert_eq!(simulation.cores, 3);
    assert_eq!(simulation.total_frames, 5);
    assert_eq!(simulation.counter, 0);
    assert_eq!(simulation.workers, vec![WorkerState::Idle; 3]);
    assert_eq!(simulation.signals, vec![0; 3]);
}

#[test]
fn simulation_run_follows_the_schedule() {
    let simulation = Simulation::run(2, 3, &[0, 0, 0, 0, 1, 1, 1]);
    assert_eq!(simulation.counter, 2);
    assert_eq!(
        simulation.workers,
        vec![WorkerState::Waiting { observed: 0 }, WorkerState::Waiting { observed: 1 }]
    );
    assert_eq!(simulation.signals, vec![1, 1]);

    let simulation = Simulation::run(2, 3, &[0, 0, 0, 0, 1, 1, 1, 0, 1]);
    assert_eq!(simulation.counter, 2);
    assert_eq!(simulation.workers, vec![WorkerState::Idle; 2]);
    assert_eq!(simulation.signals, vec![1, 1]);

    let simulation = Simulation::run(2, 3, &[]);
    assert_eq!(simulation.counter, 0);
}

#[test]
fn waiting_worker_stays_until_the_last_signal() {
    let mut simulation = Simulation::run(3, 2, &[0, 0, 0, 1, 1, 1]);
    assert_eq!(simulation.counter, 2);
    for _ in 0..10 {
        simulation.step(0);
        simulation.step(1);
        assert_eq!(simulation.workers[0], WorkerState::Waiting { observed: 0 });
        assert_eq!(simulation.workers[1], WorkerState::Waiting { observed: 1 });
    }
    simulation.step(2);
    simulation.step(2);
    simulation.step(2);
    assert_eq!(simulation.counter, 3);
    simulation.step(0);
    assert_eq!(simulation.workers[0], WorkerState::Idle);
    simulation.step(0);
    assert_eq!(simulation.workers[0], WorkerState::Copying { observed: 3 });
}

#[test]
fn no_worker_starts_a_round_before_all_have_signalled() {
    for cores in 1usize..6 {
        let mut simulation = Simulation::new(cores, 4);
        for step in 0..20_000 {
            let k = scramble(step) % cores;
            let was_idle = simulation.workers[k] == WorkerState::Idle;
            let counter = simulation.counter;
            simulation.step(k);
            if was_idle {
                assert_eq!(simulation.workers[k], WorkerState::Copying { observed: counter });
                let round = counter / cores;
                assert_eq!(simulation.signals[k], round);
                assert!(simulation.signals.iter().all(|&given| given >= round));
            }
            assert_eq!(simulation.counter, simulation.signals.iter().sum::<usize>());
            let most = simulation.signals.iter().max().unwrap();
            let least = simulation.signals.iter().min().unwrap();
            assert!(most - least <= 1);
        }
        assert!(simulation.counter >= cores);
    }
}
