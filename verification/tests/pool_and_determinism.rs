use poolsim::args_rets::{DelayDistribution, DelaySampler, Handler, MeanSampler, ProposedEvent};
use poolsim::lossy_convert::{FromLossy, IntoLossy};
use poolsim::main_loop::main_loop;
use poolsim::pool_manager::PoolManager;
use poolsim::queue::Work;
use poolsim::simulation::{BaseQueueSimulation, LogEntry, Simulation};
use poolsim::status::Status;

fn delay(mean_ticks: u64) -> DelayDistribution {
    DelayDistribution {
        mean_ticks,
        cv_hundredths: 0,
    }
}

/// Samples lognormal tick delays with rand_distr, the way the application
/// wires the simulation.
struct LogNormalSampler;

impl DelaySampler for LogNormalSampler {
    fn sample_lognormal_ticks(
        &mut self,
        mean_ticks: u64,
        cv_hundredths: u32,
        rng: &mut rand_xoshiro::Xoshiro256StarStar,
    ) -> u64 {
        let mean = if mean_ticks == 0 { 1.0 } else { mean_ticks as f32 };
        let cv = cv_hundredths as f32 / 100.0;
        let dist = rand_distr::LogNormal::from_mean_cv(mean, cv).unwrap();
        let drawn: f32 = rand_distr::Distribution::sample(&dist, rng);
        drawn as u64
    }
}

#[test]
fn pool_grows_to_target() {
    let mut sim = BaseQueueSimulation::new(1);
    let q = sim.add_queue(String::from("Q"));
    let pool = sim.add_pool(String::from("P"), vec![q]);
    PoolManager::set_desired_instances_absolute(&mut sim, pool, 3, 0);
    assert_eq!(sim.pools[pool].instances.len(), 3);
    assert_eq!(sim.workers.len(), 3);
    assert_eq!(sim.queues[q].listening_workers.len(), 3);
    for w in &sim.workers {
        assert!(w.up);
    }
}

#[test]
fn pool_set_same_count_twice_is_a_noop() {
    let mut sim = BaseQueueSimulation::new(1);
    let q = sim.add_queue(String::from("Q"));
    let pool = sim.add_pool(String::from("P"), vec![q]);
    PoolManager::set_desired_instances_absolute(&mut sim, pool, 2, 0);
    let workers_before = sim.workers.len();
    let cells_before: Vec<Status> = sim.status_cells.clone();
    let log_before = sim.log.len();
    let listening_before = sim.queues[q].listening_workers.clone();
    let r = PoolManager::set_desired_instances_absolute(&mut sim, pool, 2, 5);
    assert!(r.is_empty());
    assert_eq!(sim.workers.len(), workers_before);
    assert_eq!(sim.status_cells, cells_before);
    assert_eq!(sim.log.len(), log_before);
    assert_eq!(sim.pools[pool].instances.len(), 2);
    assert_eq!(sim.queues[q].listening_workers, listening_before);
}

#[test]
fn pool_shrinks_oldest_first() {
    let mut sim = BaseQueueSimulation::new(1);
    let q = sim.add_queue(String::from("Q"));
    let pool = sim.add_pool(String::from("P"), vec![q]);
    PoolManager::set_desired_instances_absolute(&mut sim, pool, 3, 0);
    let oldest_cell = sim.pools[pool].instances[0].status_cell;
    let youngest_cell = sim.pools[pool].instances[2].status_cell;
    PoolManager::set_desired_instances_absolute(&mut sim, pool, 2, 1);
    assert_eq!(sim.pools[pool].instances.len(), 2);
    assert_eq!(sim.status_cells[oldest_cell], Status::ShuttingDown);
    assert_eq!(sim.status_cells[youngest_cell], Status::Running);
}

#[test]
fn pool_delta_adjusts_count() {
    let mut sim = BaseQueueSimulation::new(1);
    let q = sim.add_queue(String::from("Q"));
    let pool = sim.add_pool(String::from("P"), vec![q]);
    PoolManager::set_desired_instances_absolute(&mut sim, pool, 2, 0);
    PoolManager::set_desired_instances_delta(&mut sim, pool, 2, 1);
    assert_eq!(sim.pools[pool].instances.len(), 4);
    PoolManager::set_desired_instances_delta(&mut sim, pool, -3, 2);
    assert_eq!(sim.pools[pool].instances.len(), 1);
}

fn run_jittered(seed: u64) -> (Vec<LogEntry>, u64) {
    let mut sim = BaseQueueSimulation::new(seed);
    let q = sim.add_queue(String::from("Q"));
    let pool = sim.add_pool(String::from("P"), vec![q]);
    PoolManager::set_desired_instances_absolute(&mut sim, pool, 2, 0);
    let mut sampler = LogNormalSampler;
    let mut initial = Vec::new();
    for (d, cv, tag) in [(40u64, 10u32, 1u64), (60, 25, 2), (60, 25, 3), (90, 50, 4)] {
        initial.push(ProposedEvent {
            due_time: DelayDistribution {
                mean_ticks: d,
                cv_hundredths: cv,
            },
            handler: Handler::Enqueued {
                queue: q,
                work: Work {
                    restore_delay: DelayDistribution {
                        mean_ticks: 500,
                        cv_hundredths: 100,
                    },
                    tag,
                },
            },
        });
    }
    main_loop(&mut sim, initial, &mut sampler, 100_000);
    (sim.log.clone(), sim.get_events_dispatched_metric())
}

#[test]
fn replaying_the_same_seed_gives_an_identical_run() {
    let (log_a, n_a) = run_jittered(1236);
    let (log_b, n_b) = run_jittered(1236);
    assert_eq!(n_a, n_b);
    assert_eq!(log_a, log_b);
    assert!(n_a >= 4);
}

#[test]
fn mean_sampler_ignores_jitter() {
    let mut sampler = MeanSampler {};
    let mut rng = poolsim::rng::rng_from_seed(3);
    let d = DelayDistribution {
        mean_ticks: 250,
        cv_hundredths: 100,
    };
    assert_eq!(d.sample(&mut sampler, &mut rng), 250);
}

#[test]
fn lossy_conversion_is_identity_on_same_type() {
    let x: u64 = 17;
    let y: u64 = u64::from_lossy(x);
    assert_eq!(y, 17);
    let z: u64 = x.into_lossy();
    assert_eq!(z, 17);
}

#[test]
fn jittered_delays_are_still_clamped_to_one_tick() {
    let mut sampler = LogNormalSampler;
    let mut rng = poolsim::rng::rng_from_seed(9);
    let d = DelayDistribution {
        mean_ticks: 1,
        cv_hundredths: 200,
    };
    for _ in 0..200 {
        assert!(d.sample(&mut sampler, &mut rng) >= 1);
    }
}
