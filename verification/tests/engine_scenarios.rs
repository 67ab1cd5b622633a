use poolsim::args_rets::{DelayDistribution, Handler, MeanSampler, ProposedEvent};
use poolsim::main_loop::main_loop;
use poolsim::pool_manager::PoolManager;
use poolsim::queue::{Work, WorkerState};
use poolsim::simulation::{BaseQueueSimulation, LogKind, QueueSimulation, Simulation};
use poolsim::status::Status;

fn delay(mean_ticks: u64) -> DelayDistribution {
    DelayDistribution {
        mean_ticks,
        cv_hundredths: 0,
    }
}

#[test]
fn empty_run_dispatches_nothing() {
    let mut sim = BaseQueueSimulation::new(1236);
    let mut sampler = MeanSampler {};
    let pending = main_loop(&mut sim, Vec::new(), &mut sampler, 100_000);
    assert_eq!(pending, 0);
    assert_eq!(sim.get_events_dispatched_metric(), 0);
    assert_eq!(sim.log.len(), 0);
    assert_eq!(sim.metric_reports.len(), 0);
}

#[test]
fn single_self_scheduling_handler() {
    let mut sim = BaseQueueSimulation::new(42);
    let mut sampler = MeanSampler {};
    let initial = vec![ProposedEvent {
        due_time: delay(1),
        handler: Handler::Repeat {
            remaining: 5,
            due_time: delay(1),
            tag: 7,
        },
    }];
    main_loop(&mut sim, initial, &mut sampler, 100_000);
    assert_eq!(sim.get_events_dispatched_metric(), 6);
    let invoked: Vec<u64> = sim
        .log
        .iter()
        .filter(|e| e.kind == LogKind::Invoked)
        .map(|e| e.timestamp)
        .collect();
    assert_eq!(invoked, vec![1, 2, 3, 4, 5, 6]);
    for e in &sim.log {
        assert_eq!(e.tag, 7);
    }
}

#[test]
fn queue_with_two_enqueues_and_no_workers() {
    let mut sim = BaseQueueSimulation::new(9);
    let q = sim.add_queue(String::from("Q"));
    let mut sampler = MeanSampler {};
    let initial = vec![
        ProposedEvent {
            due_time: delay(1),
            handler: Handler::Enqueued {
                queue: q,
                work: Work {
                    restore_delay: delay(1000),
                    tag: 1,
                },
            },
        },
        ProposedEvent {
            due_time: delay(2),
            handler: Handler::Enqueued {
                queue: q,
                work: Work {
                    restore_delay: delay(1000),
                    tag: 2,
                },
            },
        },
    ];
    main_loop(&mut sim, initial, &mut sampler, 100_000);
    assert_eq!(sim.worker_tokens_checked_out.len(), 0);
    assert_eq!(sim.queues[q].deque.len(), 2);
    assert_eq!(sim.queues[q].deque[0].tag, 1);
    assert_eq!(sim.queues[q].deque[1].tag, 2);
    assert_eq!(sim.get_events_dispatched_metric(), 2);
}

#[test]
fn queue_with_one_listening_worker_and_three_enqueues() {
    let mut sim = BaseQueueSimulation::new(5);
    let q = sim.add_queue(String::from("Q"));
    let pool = sim.add_pool(String::from("P"), vec![q]);
    let boot = PoolManager::set_desired_instances_absolute(&mut sim, pool, 1, 0);
    assert!(boot.is_empty());
    assert_eq!(sim.queues[q].listening_workers.len(), 1);
    let mut sampler = MeanSampler {};
    let mut initial = Vec::new();
    for (d, tag) in [(10u64, 1u64), (20, 2), (30, 3)] {
        initial.push(ProposedEvent {
            due_time: delay(d),
            handler: Handler::Enqueued {
                queue: q,
                work: Work {
                    restore_delay: delay(4 * 1000),
                    tag,
                },
            },
        });
    }
    let pending = main_loop(&mut sim, initial, &mut sampler, 100_000);
    assert_eq!(pending, 0);
    let checkout_times: Vec<u64> = sim
        .worker_tokens_checked_out
        .iter()
        .map(|c| c.timestamp)
        .collect();
    assert_eq!(checkout_times, vec![10, 4010, 8010]);
    // first in, first out: the work is served in arrival order
    let checkout_tags: Vec<u64> = sim
        .log
        .iter()
        .filter(|e| e.kind == LogKind::Checkout)
        .map(|e| e.tag)
        .collect();
    assert_eq!(checkout_tags, vec![1, 2, 3]);
    assert_eq!(sim.worker_token_duration.len(), 3);
    for d in &sim.worker_token_duration {
        assert_eq!(d.ticks, 4000);
    }
    // every restoration happens strictly after its checkout
    let restored: Vec<u64> = sim
        .log
        .iter()
        .filter(|e| e.kind == LogKind::Restored)
        .map(|e| e.timestamp)
        .collect();
    assert_eq!(restored, vec![4010, 8010, 12010]);
    // all work served, the worker listens again with its gauge up
    assert_eq!(sim.queues[q].deque.len(), 0);
    assert_eq!(sim.queues[q].listening_workers.len(), 1);
    assert_eq!(sim.get_up_metric(), 1);
}

#[test]
fn shared_rate_resource_saturation() {
    let mut sim = BaseQueueSimulation::new(8);
    let r = sim.add_resource(0, 2);
    let mut sampler = MeanSampler {};
    // three simultaneous tenants at tick 0, each needing 1000 timer ticks
    // on two partitions
    let mut initial = Vec::new();
    for tag in [1u64, 2, 3] {
        let mut proposed = poolsim::shared_rate_resource::SharedRateResource::mk_shared_rate_event(
            &mut sim,
            r,
            0,
            delay(1000),
            poolsim::shared_rate_resource::TenancyWork { tag },
            &mut sampler,
        );
        initial.append(&mut proposed);
    }
    main_loop(&mut sim, initial, &mut sampler, 100_000);
    let done: Vec<(u64, u64)> = sim
        .log
        .iter()
        .filter(|e| e.kind == LogKind::TenancyDone)
        .map(|e| (e.timestamp, e.tag))
        .collect();
    assert_eq!(done.len(), 3);
    // all three tenants finish at the same tick: 1000 timer ticks at rate
    // 2/3 take 1500 real ticks
    for (ts, _) in &done {
        assert_eq!(*ts, 1500);
    }
    let mut tags: Vec<u64> = done.iter().map(|(_, t)| *t).collect();
    tags.sort();
    assert_eq!(tags, vec![1, 2, 3]);
    assert_eq!(sim.resources[r].tenancies.len(), 0);
}

#[test]
fn shutdown_during_pending_work() {
    let mut sim = BaseQueueSimulation::new(3);
    let q = sim.add_queue(String::from("Q"));
    let pool = sim.add_pool(String::from("P"), vec![q]);
    PoolManager::set_desired_instances_absolute(&mut sim, pool, 1, 0);
    let w = 0usize;
    assert_eq!(sim.workers[w].up, true);
    let cell = sim.workers[w].status;
    let mut sampler = MeanSampler {};
    let initial = vec![
        ProposedEvent {
            due_time: delay(1),
            handler: Handler::SetStatus {
                cell,
                to: Status::ShuttingDown,
            },
        },
        ProposedEvent {
            due_time: delay(2),
            handler: Handler::Enqueued {
                queue: q,
                work: Work {
                    restore_delay: delay(1000),
                    tag: 1,
                },
            },
        },
    ];
    main_loop(&mut sim, initial, &mut sampler, 100_000);
    // the stale worker was skipped and shut down; the work stays queued
    assert_eq!(sim.worker_tokens_checked_out.len(), 0);
    assert_eq!(sim.queues[q].deque.len(), 1);
    assert_eq!(sim.queues[q].listening_workers.len(), 0);
    assert_eq!(sim.workers[w].up, false);
    assert_eq!(sim.get_up_metric(), 0);
    assert!(matches!(sim.workers[w].state, WorkerState::Terminated));
}

#[test]
fn multi_queue_worker_is_unenrolled_everywhere_on_checkout() {
    let mut sim = BaseQueueSimulation::new(21);
    let q1 = sim.add_queue(String::from("A"));
    let q2 = sim.add_queue(String::from("B"));
    let pool = sim.add_pool(String::from("P"), vec![q1, q2]);
    PoolManager::set_desired_instances_absolute(&mut sim, pool, 1, 0);
    assert_eq!(sim.queues[q1].listening_workers.len(), 1);
    assert_eq!(sim.queues[q2].listening_workers.len(), 1);
    let mut sampler = MeanSampler {};
    let initial = vec![
        ProposedEvent {
            due_time: delay(5),
            handler: Handler::Enqueued {
                queue: q1,
                work: Work {
                    restore_delay: delay(100),
                    tag: 1,
                },
            },
        },
        ProposedEvent {
            due_time: delay(6),
            handler: Handler::Enqueued {
                queue: q2,
                work: Work {
                    restore_delay: delay(100),
                    tag: 2,
                },
            },
        },
    ];
    main_loop(&mut sim, initial, &mut sampler, 100_000);
    // checked out from A at 5 (also unenrolled from B, so B's work waits),
    // restored at 105 and immediately checked out again for B's work
    let checkouts: Vec<(usize, u64)> = sim
        .worker_tokens_checked_out
        .iter()
        .map(|c| (c.queue, c.timestamp))
        .collect();
    assert_eq!(checkouts, vec![(q1, 5), (q2, 105)]);
    // afterwards the worker listens on both subscribed queues again
    assert_eq!(sim.queues[q1].deque.len(), 0);
    assert_eq!(sim.queues[q2].deque.len(), 0);
    assert_eq!(sim.queues[q1].listening_workers.len(), 1);
    assert_eq!(sim.queues[q2].listening_workers.len(), 1);
}

#[test]
fn stop_handler_ends_the_run() {
    let mut sim = BaseQueueSimulation::new(11);
    let mut sampler = MeanSampler {};
    let initial = vec![
        ProposedEvent {
            due_time: delay(1),
            handler: Handler::Stop,
        },
        ProposedEvent {
            due_time: delay(5),
            handler: Handler::Record { tag: 9 },
        },
    ];
    let pending = main_loop(&mut sim, initial, &mut sampler, 100_000);
    assert!(sim.stopped);
    // the event scheduled after the stop is left unserved
    assert_eq!(pending, 1);
    assert_eq!(sim.get_events_dispatched_metric(), 1);
    assert!(sim.log.iter().all(|e| e.tag != 9));
}

#[test]
fn metric_collection_reschedules_itself() {
    let mut sim = BaseQueueSimulation::new(2);
    let mut sampler = MeanSampler {};
    let initial = vec![ProposedEvent {
        due_time: delay(1),
        handler: Handler::MetricCollection,
    }];
    main_loop(&mut sim, initial, &mut sampler, 3);
    assert_eq!(sim.metric_reports.len(), 3);
    assert_eq!(sim.metric_reports[0].timestamp, 1);
    assert_eq!(sim.metric_reports[1].timestamp, 15_001);
    assert_eq!(sim.metric_reports[2].timestamp, 30_001);
}

#[test]
fn events_dispatched_matches_invocations() {
    let mut sim = BaseQueueSimulation::new(42);
    let mut sampler = MeanSampler {};
    let initial = vec![ProposedEvent {
        due_time: delay(1),
        handler: Handler::Repeat {
            remaining: 9,
            due_time: delay(3),
            tag: 1,
        },
    }];
    main_loop(&mut sim, initial, &mut sampler, 100_000);
    let invoked = sim
        .log
        .iter()
        .filter(|e| e.kind == LogKind::Invoked)
        .count() as u64;
    assert_eq!(sim.get_events_dispatched_metric(), invoked);
    assert_eq!(invoked, 10);
}

#[test]
fn handler_timestamps_never_regress() {
    let mut sim = BaseQueueSimulation::new(77);
    let q = sim.add_queue(String::from("Q"));
    let pool = sim.add_pool(String::from("P"), vec![q]);
    PoolManager::set_desired_instances_absolute(&mut sim, pool, 2, 0);
    let mut sampler = MeanSampler {};
    let mut initial = Vec::new();
    for (d, tag) in [(5u64, 1u64), (5, 2), (9, 3), (13, 4)] {
        initial.push(ProposedEvent {
            due_time: delay(d),
            handler: Handler::Enqueued {
                queue: q,
                work: Work {
                    restore_delay: delay(100),
                    tag,
                },
            },
        });
    }
    main_loop(&mut sim, initial, &mut sampler, 100_000);
    for pair in sim.log.windows(2) {
        assert!(pair[0].timestamp <= pair[1].timestamp);
    }
}
