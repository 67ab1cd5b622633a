use vstd::prelude::*;

use crate::args_rets::{event_tokens_fresh, ProposedEvent};
use crate::queue::{Worker, WorkerState};
use crate::rng::{rand_u64, rng_fork};
use crate::simulation::{
    count_invoked, lemma_evolves_trans, lemma_log_extended_trans, lemma_prefix_refl,
    BaseQueueSimulation,
};
use crate::status::Status;

verus! {

/// A live worker instance a pool manager is responsible for: shutting it
/// down means writing `ShuttingDown` into its status cell.
#[derive(Clone, Copy, Debug, PartialEq, Eq, Structural)]
pub struct PoolInstance {
    pub status_cell: usize,
}

/// How a pool manager constructs a worker: the queue subscriptions each new
/// worker starts listening on.
pub struct WorkerTemplate {
    /// Indices into the queue arena; deduplicated.
    pub subscribed_queues: Vec<usize>,
}

/// Maintains a target count of worker instances. Instances retire first in
/// first out: the oldest is shut down first.
pub struct PoolManager {
    pub name: String,
    /// Live instances, oldest first.
    pub instances: Vec<PoolInstance>,
    /// Stands in for the instance constructor: each new instance is a worker
    /// built from this template.
    pub instance_constructor: WorkerTemplate,
}

/// Copy a list of arena indices.
fn copy_indices(v: &Vec<usize>) -> (r: Vec<usize>)
    ensures
        r@ == v@,
{
    let mut r: Vec<usize> = Vec::new();
    let mut i: usize = 0;
    while i < v.len()
        invariant
            i <= v@.len(),
            r@ == v@.subrange(0, i as int),
        decreases v@.len() - i,
    {
        r.push(v[i]);
        proof {
            assert(r@ =~= v@.subrange(0, i + 1));
        }
        i = i + 1;
    }
    proof {
        assert(r@ =~= v@);
    }
    r
}

impl PoolManager {
    /// Construct one worker instance from the pool's template: give it a
    /// fresh identity and a running status cell, let it listen, and push the
    /// shutdown handle at the back of the instance deque. Returns whatever
    /// the new worker picked up on its first listen.
    #[verifier::rlimit(100)]
    #[verifier::spinoff_prover]
    pub fn create_instance(sim: &mut BaseQueueSimulation, pool: usize, timestamp: u64) -> (r: Vec<
        ProposedEvent,
    >)
        requires
            old(sim).wf(),
            (pool as int) < old(sim).pools@.len(),
        ensures
            final(sim).wf(),
            old(sim).evolves_to(*final(sim)),
            final(sim).workers@.len() == old(sim).workers@.len() + 1,
            final(sim).queues@.len() == old(sim).queues@.len(),
            final(sim).resources == old(sim).resources,
            final(sim).metric_reports == old(sim).metric_reports,
            final(sim).stopped == old(sim).stopped,
            final(sim).pools@.len() == old(sim).pools@.len(),
            forall|pi: int|
                0 <= pi < old(sim).pools@.len() && pi != pool ==> final(sim).pools@[pi] == old(sim).pools@[pi],
            final(sim).pools@[pool as int].instances@.len() == old(sim).pools@[pool as int].instances@.len() + 1,
            final(sim).pools@[pool as int].name == old(sim).pools@[pool as int].name,
            final(sim).pools@[pool as int].instance_constructor == old(sim).pools@[pool as int].instance_constructor,
            forall|i: int|
                0 <= i < old(sim).pools@[pool as int].instances@.len() ==> final(sim).pools@[pool as int].instances@[i]
                    == old(sim).pools@[pool as int].instances@[i],
            final(sim).status_cells@.len() == old(sim).status_cells@.len() + 1,
            forall|i: int|
                0 <= i < old(sim).status_cells@.len() ==> final(sim).status_cells@[i] == old(sim).status_cells@[i],
            final(sim).status_cells@[old(sim).status_cells@.len() as int] == Status::Running,
            final(sim).pools@[pool as int].instances@.last().status_cell == old(sim).status_cells@.len(),
            forall|wi: int|
                0 <= wi < old(sim).workers@.len() ==> (#[trigger] final(sim).workers@[wi]) == old(sim).workers@[wi],
            final(sim).workers@[old(sim).workers@.len() as int].subscribed_queues@ == old(sim).pools@[pool as int].instance_constructor.subscribed_queues@,
            (final(sim).workers@[old(sim).workers@.len() as int].status as int) == old(sim).status_cells@.len(),
            final(sim).workers@[old(sim).workers@.len() as int].up == true,
            final(sim).workers@[old(sim).workers@.len() as int].state == WorkerState::Listening
                || final(sim).workers@[old(sim).workers@.len() as int].state
                == WorkerState::CheckedOut,
            (forall|x: int|
                0 <= x < old(sim).pools@[pool as int].instance_constructor.subscribed_queues@.len()
                    ==> old(sim).queues@[(#[trigger] old(sim).pools@[pool as int].instance_constructor.subscribed_queues@[x]) as int].deque@.len()
                    == 0) ==> {
                &&& final(sim).workers@[old(sim).workers@.len() as int].state
                    == WorkerState::Listening
                &&& r@.len() == 0
                &&& forall|qi: int|
                    0 <= qi < old(sim).queues@.len() ==> (#[trigger] final(sim).queues@[qi]).listening_workers@
                        == if old(sim).pools@[pool as int].instance_constructor.subscribed_queues@.contains(
                        qi as usize,
                    ) {
                        old(sim).queues@[qi].listening_workers@.push(
                            old(sim).workers@.len() as usize,
                        )
                    } else {
                        old(sim).queues@[qi].listening_workers@
                    }
            },
            BaseQueueSimulation::log_extended_at(old(sim).log@, final(sim).log@, timestamp),
            count_invoked(final(sim).log@) == count_invoked(old(sim).log@),
            forall|i: int|
                0 <= i < r@.len() ==> event_tokens_fresh(
                    r@[i],
                    final(sim).workers@.len() as int,
                    timestamp,
                ),
    {
        let id = rand_u64(&mut sim.simulation.rng);
        proof {
            assert forall|qi: int| 0 <= qi < sim.queues@.len() implies sim.queue_wf(qi) by {
                assert(old(sim).queue_wf(qi));
            }
            assert forall|wi: int| 0 <= wi < sim.workers@.len() implies sim.worker_wf(wi) by {
                assert(old(sim).worker_wf(wi));
            }
            assert forall|pi: int| 0 <= pi < sim.pools@.len() implies sim.pool_wf(pi) by {
                assert(old(sim).pool_wf(pi));
            }
        }
        let cell = sim.new_status_cell(Status::Running);
        let ghost safter_cell = *sim;
        let subs = copy_indices(&sim.pools[pool].instance_constructor.subscribed_queues);
        let rng = rng_fork(&sim.simulation.rng);
        let w = sim.workers.len();
        sim.workers.push(
            Worker {
                id,
                subscribed_queues: subs,
                status: cell,
                state: WorkerState::CheckedOut,
                up: false,
                rng,
            },
        );
        proof {
            assert(safter_cell.pool_wf(pool as int));
            assert forall|qi: int| 0 <= qi < sim.queues@.len() implies sim.queue_wf(qi) by {
                assert(safter_cell.queue_wf(qi));
            }
            assert forall|wi: int| 0 <= wi < sim.workers@.len() implies sim.worker_wf(wi) by {
                if wi < w {
                    assert(safter_cell.worker_wf(wi));
                }
            }
            assert forall|pi: int| 0 <= pi < sim.pools@.len() implies sim.pool_wf(pi) by {
                assert(safter_cell.pool_wf(pi));
            }
        }
        let ghost safter_worker = *sim;
        proof {
            assert(safter_worker.queues@ == old(sim).queues@);
            assert(safter_worker.workers@[w as int].subscribed_queues@ == old(sim).pools@[pool as int].instance_constructor.subscribed_queues@);
            assert(safter_worker.status_cells@[safter_worker.workers@[w as int].status as int]
                == Status::Running);
        }
        let r = crate::queue::Worker::listen(sim, w, timestamp);
        let ghost safter_listen = *sim;
        proof {
            assert(!safter_worker.has_nonempty_subscribed(w) <==> (forall|x: int|
                0 <= x < old(sim).pools@[pool as int].instance_constructor.subscribed_queues@.len()
                    ==> old(sim).queues@[(#[trigger] old(sim).pools@[pool as int].instance_constructor.subscribed_queues@[x]) as int].deque@.len()
                    == 0)) by {
                if (forall|x: int|
                    0 <= x
                        < old(sim).pools@[pool as int].instance_constructor.subscribed_queues@.len()
                        ==> old(sim).queues@[(#[trigger] old(sim).pools@[pool as int].instance_constructor.subscribed_queues@[x]) as int].deque@.len()
                        == 0) {
                    if safter_worker.has_nonempty_subscribed(w) {
                        let x0 = choose|x0: int|
                            0 <= x0 < safter_worker.workers@[w as int].subscribed_queues@.len()
                                && safter_worker.queues@[(safter_worker.workers@[w as int].subscribed_queues@[x0]) as int].deque@.len()
                                > 0;
                        assert(old(sim).queues@[(old(sim).pools@[pool as int].instance_constructor.subscribed_queues@[x0]) as int].deque@.len()
                            == 0);
                    }
                }
            }
        }
        sim.pools[pool].instances.push(PoolInstance { status_cell: cell });
        proof {
            assert forall|qi: int| 0 <= qi < sim.queues@.len() implies sim.queue_wf(qi) by {
                assert(safter_listen.queue_wf(qi));
            }
            assert forall|wi: int| 0 <= wi < sim.workers@.len() implies sim.worker_wf(wi) by {
                assert(safter_listen.worker_wf(wi));
            }
            assert forall|pi: int| 0 <= pi < sim.pools@.len() implies sim.pool_wf(pi) by {
                assert(safter_listen.pool_wf(pi));
                if pi == pool {
                    assert forall|i: int|
                        0 <= i < sim.pools@[pi].instances@.len() implies (
                    #[trigger] sim.pools@[pi].instances@[i].status_cell as int)
                        < sim.status_cells@.len() by {
                        if i < safter_listen.pools@[pi].instances@.len() {
                            assert(sim.pools@[pi].instances@[i] == safter_listen.pools@[pi].instances@[i]);
                        }
                    }
                }
            }
            lemma_prefix_refl(old(sim).log@);
            lemma_prefix_refl(old(sim).worker_tokens_checked_out@);
            lemma_prefix_refl(old(sim).worker_token_duration@);
            lemma_prefix_refl(old(sim).metric_reports@);
            lemma_evolves_trans(*old(sim), safter_worker, *sim);
            lemma_log_extended_trans(old(sim).log@, safter_worker.log@, sim.log@, timestamp);
        }
        r
    }

    /// Bring the pool to exactly `count` live instances: construct new
    /// workers while below target, and while above it shut instances down,
    /// oldest first, by marking their status cells. Asking for the current
    /// count changes nothing.
    #[verifier::loop_isolation(false)]
    #[verifier::rlimit(100)]
    #[verifier::spinoff_prover]
    pub fn set_desired_instances_absolute(
        sim: &mut BaseQueueSimulation,
        pool: usize,
        count: u32,
        timestamp: u64,
    ) -> (r: Vec<ProposedEvent>)
        requires
            old(sim).wf(),
            (pool as int) < old(sim).pools@.len(),
        ensures
            final(sim).wf(),
            old(sim).evolves_to(*final(sim)),
            final(sim).queues@.len() == old(sim).queues@.len(),
            final(sim).resources == old(sim).resources,
            final(sim).metric_reports == old(sim).metric_reports,
            final(sim).stopped == old(sim).stopped,
            final(sim).pools@.len() == old(sim).pools@.len(),
            final(sim).pools@[pool as int].instances@.len() == count as nat,
            forall|pi: int|
                0 <= pi < old(sim).pools@.len() && pi != pool ==> final(sim).pools@[pi] == old(sim).pools@[pi],
            old(sim).pools@[pool as int].instances@.len() == count as nat ==> (*final(sim) == *old(sim) && r@.len() == 0),
            old(sim).pools@[pool as int].instances@.len() >= count as nat ==> (final(sim).workers
                == old(sim).workers && r@.len() == 0 && final(sim).log == old(sim).log),
            count as nat > old(sim).pools@[pool as int].instances@.len() ==> {
                &&& final(sim).workers@.len() == old(sim).workers@.len() + count as int - old(sim).pools@[pool as int].instances@.len()
                &&& forall|i: int|
                    0 <= i < old(sim).pools@[pool as int].instances@.len() ==> (#[trigger] final(sim).pools@[pool as int].instances@[i]) == old(sim).pools@[pool as int].instances@[i]
                &&& forall|i: int|
                    old(sim).pools@[pool as int].instances@.len() <= i < count as int ==> {
                        &&& old(sim).status_cells@.len() <= ((#[trigger] final(sim).pools@[pool as int].instances@[i]).status_cell as int) < final(sim).status_cells@.len()
                        &&& final(sim).status_cells@[final(sim).pools@[pool as int].instances@[i].status_cell as int] == Status::Running
                        &&& exists|wx: int|
                            old(sim).workers@.len() <= wx < final(sim).workers@.len() && ((
                            #[trigger] final(sim).workers@[wx]).status as int) == final(sim).pools@[pool as int].instances@[i].status_cell as int
                                && final(sim).workers@[wx].subscribed_queues@ == old(sim).pools@[pool as int].instance_constructor.subscribed_queues@
                                && final(sim).workers@[wx].up == true
                    }
            },
            count as nat <= old(sim).pools@[pool as int].instances@.len() ==> {
                &&& final(sim).pools@[pool as int].instances@ == old(sim).pools@[pool as int].instances@.subrange(
                    old(sim).pools@[pool as int].instances@.len() - count as int,
                    old(sim).pools@[pool as int].instances@.len() as int,
                )
                &&& final(sim).status_cells@.len() == old(sim).status_cells@.len()
                &&& forall|j: int|
                    0 <= j < old(sim).status_cells@.len() && (exists|i: int|
                        0 <= i < old(sim).pools@[pool as int].instances@.len() - count as int && ((
                        #[trigger] old(sim).pools@[pool as int].instances@[i]).status_cell as int)
                            == j) ==> (#[trigger] final(sim).status_cells@[j])
                        == Status::ShuttingDown
                &&& forall|j: int|
                    0 <= j < old(sim).status_cells@.len() && (forall|i: int|
                        0 <= i < old(sim).pools@[pool as int].instances@.len() - count as int ==> ((
                        #[trigger] old(sim).pools@[pool as int].instances@[i]).status_cell as int)
                            != j) ==> (#[trigger] final(sim).status_cells@[j]) == old(sim).status_cells@[j]
            },
            BaseQueueSimulation::log_extended_at(old(sim).log@, final(sim).log@, timestamp),
            count_invoked(final(sim).log@) == count_invoked(old(sim).log@),
            forall|i: int|
                0 <= i < r@.len() ==> event_tokens_fresh(
                    r@[i],
                    final(sim).workers@.len() as int,
                    timestamp,
                ),
    {
        let target = count as usize;
        let cur = sim.pools[pool].instances.len();
        if cur == target {
            proof {
                lemma_prefix_refl(old(sim).log@);
                lemma_prefix_refl(old(sim).worker_tokens_checked_out@);
                lemma_prefix_refl(old(sim).worker_token_duration@);
                lemma_prefix_refl(old(sim).metric_reports@);
                assert(old(sim).pools@[pool as int].instances@ =~= old(sim).pools@[pool as int].instances@.subrange(
                    0,
                    old(sim).pools@[pool as int].instances@.len() as int,
                ));
            }
            return Vec::new();
        }
        let mut r: Vec<ProposedEvent> = Vec::new();
        proof {
            lemma_prefix_refl(old(sim).log@);
            lemma_prefix_refl(old(sim).worker_tokens_checked_out@);
            lemma_prefix_refl(old(sim).worker_token_duration@);
            lemma_prefix_refl(old(sim).metric_reports@);
        }
        while sim.pools[pool].instances.len() < target
            invariant
                sim.wf(),
                old(sim).evolves_to(*sim),
                sim.queues@.len() == old(sim).queues@.len(),
                sim.resources == old(sim).resources,
                sim.metric_reports == old(sim).metric_reports,
                sim.stopped == old(sim).stopped,
                sim.pools@.len() == old(sim).pools@.len(),
                forall|pi: int|
                    0 <= pi < old(sim).pools@.len() && pi != pool ==> sim.pools@[pi] == old(sim).pools@[pi],
                sim.pools@[pool as int].instances@.len() >= old(sim).pools@[pool as int].instances@.len(),
                old(sim).pools@[pool as int].instances@.len() >= count as nat ==> (*sim == *old(sim) && r@.len() == 0),
                sim.pools@[pool as int].instance_constructor == old(sim).pools@[pool as int].instance_constructor,
                sim.pools@[pool as int].instances@.len() <= count as nat || sim.pools@[pool as int].instances@.len() == old(sim).pools@[pool as int].instances@.len(),
                sim.workers@.len() == old(sim).workers@.len() + sim.pools@[pool as int].instances@.len() - old(sim).pools@[pool as int].instances@.len(),
                forall|wi: int|
                    0 <= wi < old(sim).workers@.len() ==> (#[trigger] sim.workers@[wi]) == old(sim).workers@[wi],
                forall|i: int|
                    0 <= i < old(sim).pools@[pool as int].instances@.len() ==> (#[trigger] sim.pools@[pool as int].instances@[i]) == old(sim).pools@[pool as int].instances@[i],
                sim.status_cells@.len() >= old(sim).status_cells@.len(),
                forall|j: int|
                    0 <= j < old(sim).status_cells@.len() ==> (#[trigger] sim.status_cells@[j]) == old(sim).status_cells@[j],
                forall|i: int|
                    old(sim).pools@[pool as int].instances@.len() <= i < sim.pools@[pool as int].instances@.len() ==> {
                        &&& old(sim).status_cells@.len() <= ((#[trigger] sim.pools@[pool as int].instances@[i]).status_cell as int) < sim.status_cells@.len()
                        &&& sim.status_cells@[sim.pools@[pool as int].instances@[i].status_cell as int] == Status::Running
                        &&& exists|wx: int|
                            old(sim).workers@.len() <= wx < sim.workers@.len() && ((
                            #[trigger] sim.workers@[wx]).status as int) == sim.pools@[pool as int].instances@[i].status_cell as int
                                && sim.workers@[wx].subscribed_queues@ == old(sim).pools@[pool as int].instance_constructor.subscribed_queues@
                                && sim.workers@[wx].up == true
                    },
                BaseQueueSimulation::log_extended_at(old(sim).log@, sim.log@, timestamp),
                count_invoked(sim.log@) == count_invoked(old(sim).log@),
                forall|i: int|
                    0 <= i < r@.len() ==> event_tokens_fresh(
                        r@[i],
                        sim.workers@.len() as int,
                        timestamp,
                    ),
            decreases target - sim.pools@[pool as int].instances@.len(),
        {
            let ghost siter = *sim;
            let mut evs = Self::create_instance(sim, pool, timestamp);
            let ghost evs_snap = evs@;
            let ghost out_before = r@;
            r.append(&mut evs);
            proof {
                lemma_evolves_trans(*old(sim), siter, *sim);
                lemma_log_extended_trans(old(sim).log@, siter.log@, sim.log@, timestamp);
                assert forall|i: int| 0 <= i < r@.len() implies event_tokens_fresh(
                    r@[i],
                    sim.workers@.len() as int,
                    timestamp,
                ) by {
                    if i < out_before.len() {
                        assert(r@[i] == out_before[i]);
                        assert(event_tokens_fresh(r@[i], siter.workers@.len() as int, timestamp));
                    } else {
                        assert(r@[i] == evs_snap[i - out_before.len()]);
                    }
                }
                assert forall|i: int|
                    old(sim).pools@[pool as int].instances@.len() <= i < sim.pools@[pool as int].instances@.len() implies {
                    &&& old(sim).status_cells@.len() <= ((#[trigger] sim.pools@[pool as int].instances@[i]).status_cell as int) < sim.status_cells@.len()
                    &&& sim.status_cells@[sim.pools@[pool as int].instances@[i].status_cell as int] == Status::Running
                    &&& exists|wx: int|
                        old(sim).workers@.len() <= wx < sim.workers@.len() && ((
                        #[trigger] sim.workers@[wx]).status as int) == sim.pools@[pool as int].instances@[i].status_cell as int
                            && sim.workers@[wx].subscribed_queues@ == old(sim).pools@[pool as int].instance_constructor.subscribed_queues@
                            && sim.workers@[wx].up == true
                } by {
                    if i < siter.pools@[pool as int].instances@.len() {
                        assert(sim.pools@[pool as int].instances@[i] == siter.pools@[pool as int].instances@[i]);
                        let wx = choose|wx: int|
                            old(sim).workers@.len() <= wx < siter.workers@.len() && ((
                            #[trigger] siter.workers@[wx]).status as int) == siter.pools@[pool as int].instances@[i].status_cell as int
                                && siter.workers@[wx].subscribed_queues@ == old(sim).pools@[pool as int].instance_constructor.subscribed_queues@
                                && siter.workers@[wx].up == true;
                        assert(sim.workers@[wx] == siter.workers@[wx]);
                    } else {
                        assert(i == siter.pools@[pool as int].instances@.len());
                        assert(sim.pools@[pool as int].instances@[i] == sim.pools@[pool as int].instances@.last());
                        let wnew = siter.workers@.len() as int;
                        assert((sim.workers@[wnew].status as int) == siter.status_cells@.len());
                        assert(sim.workers@[wnew].subscribed_queues@ == siter.pools@[pool as int].instance_constructor.subscribed_queues@);
                        assert(sim.workers@[wnew].up == true);
                    }
                }
            }
        }
        proof {
            if count as nat <= old(sim).pools@[pool as int].instances@.len() {
                assert(sim.pools@[pool as int].instances@ =~= old(sim).pools@[pool as int].instances@.subrange(
                    0,
                    old(sim).pools@[pool as int].instances@.len() as int,
                ));
            }
        }
        while sim.pools[pool].instances.len() > target
            invariant
                sim.wf(),
                old(sim).evolves_to(*sim),
                sim.queues@.len() == old(sim).queues@.len(),
                sim.resources == old(sim).resources,
                sim.metric_reports == old(sim).metric_reports,
                sim.stopped == old(sim).stopped,
                sim.pools@.len() == old(sim).pools@.len(),
                forall|pi: int|
                    0 <= pi < old(sim).pools@.len() && pi != pool ==> sim.pools@[pi] == old(sim).pools@[pi],
                target < old(sim).pools@[pool as int].instances@.len() ==> (sim.workers == old(sim).workers && sim.log == old(sim).log && r@.len() == 0
                    && sim.pools@[pool as int].instances@.len() <= old(sim).pools@[pool as int].instances@.len()),
                sim.pools@[pool as int].instances@.len() >= target || sim.pools@[pool as int].instances@.len() == count as nat,
                count as nat <= old(sim).pools@[pool as int].instances@.len() ==> {
                    &&& sim.pools@[pool as int].instances@ == old(sim).pools@[pool as int].instances@.subrange(
                        old(sim).pools@[pool as int].instances@.len() - sim.pools@[pool as int].instances@.len(),
                        old(sim).pools@[pool as int].instances@.len() as int,
                    )
                    &&& sim.status_cells@.len() == old(sim).status_cells@.len()
                    &&& forall|j: int|
                        0 <= j < old(sim).status_cells@.len() && (exists|i: int|
                            0 <= i < old(sim).pools@[pool as int].instances@.len() - sim.pools@[pool as int].instances@.len()
                                && ((#[trigger] old(sim).pools@[pool as int].instances@[i]).status_cell as int)
                                == j) ==> (#[trigger] sim.status_cells@[j])
                            == Status::ShuttingDown
                    &&& forall|j: int|
                        0 <= j < old(sim).status_cells@.len() && (forall|i: int|
                            0 <= i < old(sim).pools@[pool as int].instances@.len() - sim.pools@[pool as int].instances@.len()
                                ==> ((#[trigger] old(sim).pools@[pool as int].instances@[i]).status_cell as int)
                                != j) ==> (#[trigger] sim.status_cells@[j]) == old(sim).status_cells@[j]
                },
                count as nat > old(sim).pools@[pool as int].instances@.len() ==> {
                    &&& sim.pools@[pool as int].instances@.len() == count as nat
                    &&& sim.workers@.len() == old(sim).workers@.len() + count as int - old(sim).pools@[pool as int].instances@.len()
                    &&& forall|i: int|
                        0 <= i < old(sim).pools@[pool as int].instances@.len() ==> (#[trigger] sim.pools@[pool as int].instances@[i]) == old(sim).pools@[pool as int].instances@[i]
                    &&& forall|i: int|
                        old(sim).pools@[pool as int].instances@.len() <= i < count as int ==> {
                            &&& old(sim).status_cells@.len() <= ((#[trigger] sim.pools@[pool as int].instances@[i]).status_cell as int) < sim.status_cells@.len()
                            &&& sim.status_cells@[sim.pools@[pool as int].instances@[i].status_cell as int] == Status::Running
                            &&& exists|wx: int|
                                old(sim).workers@.len() <= wx < sim.workers@.len() && ((
                                #[trigger] sim.workers@[wx]).status as int) == sim.pools@[pool as int].instances@[i].status_cell as int
                                    && sim.workers@[wx].subscribed_queues@ == old(sim).pools@[pool as int].instance_constructor.subscribed_queues@
                                    && sim.workers@[wx].up == true
                        }
                },
                BaseQueueSimulation::log_extended_at(old(sim).log@, sim.log@, timestamp),
                count_invoked(sim.log@) == count_invoked(old(sim).log@),
                forall|i: int|
                    0 <= i < r@.len() ==> event_tokens_fresh(
                        r@[i],
                        sim.workers@.len() as int,
                        timestamp,
                    ),
            decreases sim.pools@[pool as int].instances@.len(),
        {
            let ghost siter = *sim;
            let inst = sim.pools[pool].instances.remove(0);
            proof {
                assert forall|qi: int| 0 <= qi < sim.queues@.len() implies sim.queue_wf(qi) by {
                    assert(siter.queue_wf(qi));
                }
                assert forall|wi: int| 0 <= wi < sim.workers@.len() implies sim.worker_wf(wi) by {
                    assert(siter.worker_wf(wi));
                }
                assert forall|pi: int| 0 <= pi < sim.pools@.len() implies sim.pool_wf(pi) by {
                    assert(siter.pool_wf(pi));
                    if pi == pool {
                        siter.pools@[pi].instances@.remove_ensures(0);
                        assert forall|i: int|
                            0 <= i < sim.pools@[pi].instances@.len() implies (
                        #[trigger] sim.pools@[pi].instances@[i].status_cell as int)
                            < sim.status_cells@.len() by {
                            assert(sim.pools@[pi].instances@[i] == siter.pools@[pi].instances@[i
                                + 1]);
                        }
                    }
                }
                assert(siter.pool_wf(pool as int));
                assert((inst.status_cell as int) < sim.status_cells@.len());
            }
            sim.set_status(inst.status_cell, Status::ShuttingDown);
            proof {
                if count as nat <= old(sim).pools@[pool as int].instances@.len() {
                    let oinst = old(sim).pools@[pool as int].instances@;
                    let rem_prev = oinst.len() - siter.pools@[pool as int].instances@.len();
                    assert(inst == siter.pools@[pool as int].instances@[0]);
                    assert(inst == oinst[rem_prev as int]);
                    assert(sim.pools@[pool as int].instances@ =~= oinst.subrange(
                        rem_prev as int + 1,
                        oinst.len() as int,
                    ));
                    assert forall|j: int|
                        0 <= j < old(sim).status_cells@.len() && (exists|i: int|
                            0 <= i < oinst.len() - sim.pools@[pool as int].instances@.len() && ((
                            #[trigger] oinst[i]).status_cell as int) == j) implies (
                    #[trigger] sim.status_cells@[j]) == Status::ShuttingDown by {
                        let i = choose|i: int|
                            0 <= i < oinst.len() - sim.pools@[pool as int].instances@.len() && ((
                            #[trigger] oinst[i]).status_cell as int) == j;
                        if j == inst.status_cell as int {
                        } else {
                            assert(i < rem_prev);
                            assert(siter.status_cells@[j] == Status::ShuttingDown);
                        }
                    }
                    assert forall|j: int|
                        0 <= j < old(sim).status_cells@.len() && (forall|i: int|
                            0 <= i < oinst.len() - sim.pools@[pool as int].instances@.len() ==> ((
                            #[trigger] oinst[i]).status_cell as int) != j) implies (
                    #[trigger] sim.status_cells@[j]) == old(sim).status_cells@[j] by {
                        assert((oinst[rem_prev as int].status_cell as int) != j);
                        assert(j != inst.status_cell as int);
                        assert(siter.status_cells@[j] == old(sim).status_cells@[j]);
                    }
                }
            }
        }
        proof {
            assert(sim.pools@[pool as int].instances@.len() == count as nat);
        }
        r
    }

    /// Bring the pool to its current instance count plus `delta`. A target
    /// below zero or beyond the 32-bit bound is a caller error and is ruled
    /// out.
    pub fn set_desired_instances_delta(
        sim: &mut BaseQueueSimulation,
        pool: usize,
        delta: i32,
        timestamp: u64,
    ) -> (r: Vec<ProposedEvent>)
        requires
            old(sim).wf(),
            (pool as int) < old(sim).pools@.len(),
            old(sim).pools@[pool as int].instances@.len() + delta as int >= 0,
            old(sim).pools@[pool as int].instances@.len() + delta as int <= u32::MAX as int,
            old(sim).pools@[pool as int].instances@.len() <= u32::MAX as nat,
        ensures
            final(sim).wf(),
            old(sim).evolves_to(*final(sim)),
            final(sim).pools@.len() == old(sim).pools@.len(),
            final(sim).pools@[pool as int].instances@.len() == old(sim).pools@[pool as int].instances@.len() + delta as int,
            delta == 0 ==> (*final(sim) == *old(sim) && r@.len() == 0),
            BaseQueueSimulation::log_extended_at(old(sim).log@, final(sim).log@, timestamp),
            count_invoked(final(sim).log@) == count_invoked(old(sim).log@),
    {
        let cur = sim.pools[pool].instances.len();
        let target: i64 = (cur as i64) + (delta as i64);
        Self::set_desired_instances_absolute(sim, pool, target as u32, timestamp)
    }
}

} // verus!
