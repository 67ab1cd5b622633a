use vstd::prelude::*;

use crate::args_rets::{event_tokens_fresh, DelayDistribution, Handler, ProposedEvent};
use crate::rng::rand_below;
use crate::simulation::{
    lemma_count_invoked_push, lemma_prefix_push, lemma_prefix_refl, lemma_wf_same_components,
    lemma_evolves_trans, lemma_log_extended_trans, lemma_prefix_index, lemma_prefix_trans,
    lemma_wf_worker_soft_update, BaseQueueSimulation, CheckoutRecord, LogEntry, LogKind,
    TokenDuration, count_invoked,
};
use crate::status::Status;

verus! {

/// Work that a queue hands to a checked-out worker: the worker holds its
/// token for `restore_delay`, then a follow-on event restores it. `tag`
/// identifies the work item in the simulation log.
#[derive(Clone, Copy, Debug, PartialEq, Eq, Structural)]
pub struct Work {
    pub restore_delay: DelayDistribution,
    pub tag: u64,
}

/// Where a worker stands: enrolled in the listening set of every queue it
/// subscribes to, exclusively held through a `WorkerToken`, or shut down.
#[derive(Clone, Copy, Debug, PartialEq, Eq, Structural)]
pub enum WorkerState {
    Listening,
    CheckedOut,
    Terminated,
}

/// A worker, held in the simulation's worker arena and named by its index
/// there.
pub struct Worker {
    /// Random 64-bit identity, used for metric labels.
    pub id: u64,
    /// Indices into the queue arena; deduplicated at construction.
    pub subscribed_queues: Vec<usize>,
    /// Index of this worker's status cell.
    pub status: usize,
    pub state: WorkerState,
    /// The `up` gauge for this worker.
    pub up: bool,
    pub rng: rand_xoshiro::Xoshiro256StarStar,
}

impl Queue {
    /// Choose a listening worker uniformly at random, unenrol it from every
    /// queue it subscribes to, and hand it over checked out. A chosen worker
    /// whose status is no longer `Running` is shut down and the choice is
    /// retried from the remaining listeners; nothing is returned once no
    /// listening worker remains.
    #[verifier::loop_isolation(false)]
    #[verifier::rlimit(100)]
    #[verifier::spinoff_prover]
    pub fn pick_worker(sim: &mut BaseQueueSimulation, queue: usize) -> (r: Option<usize>)
        requires
            old(sim).wf(),
            (queue as int) < old(sim).queues@.len(),
        ensures
            final(sim).wf(),
            old(sim).evolves_to(*final(sim)),
            final(sim).workers@.len() == old(sim).workers@.len(),
            final(sim).status_cells == old(sim).status_cells,
            final(sim).resources == old(sim).resources,
            final(sim).pools == old(sim).pools,
            final(sim).log == old(sim).log,
            final(sim).worker_tokens_checked_out == old(sim).worker_tokens_checked_out,
            final(sim).worker_token_duration == old(sim).worker_token_duration,
            final(sim).metric_reports == old(sim).metric_reports,
            final(sim).simulation == old(sim).simulation,
            final(sim).stopped == old(sim).stopped,
            forall|qi: int|
                0 <= qi < old(sim).queues@.len() ==> (#[trigger] final(sim).queues@[qi]).deque
                    == old(sim).queues@[qi].deque,
            forall|qi: int|
                0 <= qi < old(sim).queues@.len() ==> forall|y: usize|
                    (#[trigger] final(sim).queues@[qi]).listening_workers@.contains(y) ==> old(sim).queues@[qi].listening_workers@.contains(y),
            forall|wi: int|
                0 <= wi < old(sim).workers@.len() && old(sim).workers@[wi].state
                    != WorkerState::Listening ==> final(sim).workers@[wi] == old(sim).workers@[wi],
            forall|wi: int|
                0 <= wi < old(sim).workers@.len() && final(sim).workers@[wi].state
                    == WorkerState::Listening ==> final(sim).workers@[wi] == old(sim).workers@[wi],
            forall|wi: int|
                0 <= wi < old(sim).workers@.len() && final(sim).workers@[wi].state
                    == WorkerState::Terminated && old(sim).workers@[wi].state
                    == WorkerState::Listening ==> (final(sim).workers@[wi].up == false && old(sim).status_cells@[old(sim).workers@[wi].status as int] != Status::Running),
            forall|wi: int|
                0 <= wi < old(sim).workers@.len() && old(sim).workers@[wi].state
                    == WorkerState::Listening && (#[trigger] final(sim).workers@[wi]).state
                    != WorkerState::Listening && (match r {
                    Some(w) => wi != w as int,
                    None => true,
                }) ==> (final(sim).workers@[wi].state == WorkerState::Terminated && final(sim).workers@[wi].up == false),
            match r {
                Some(w) => {
                    &&& (w as int) < old(sim).workers@.len()
                    &&& old(sim).queues@[queue as int].listening_workers@.contains(w)
                    &&& old(sim).workers@[w as int].state == WorkerState::Listening
                    &&& final(sim).workers@[w as int].state == WorkerState::CheckedOut
                    &&& final(sim).workers@[w as int].up == old(sim).workers@[w as int].up
                    &&& old(sim).status_cells@[old(sim).workers@[w as int].status as int]
                        == Status::Running
                    &&& forall|qi: int|
                        0 <= qi < final(sim).queues@.len() ==> !(#[trigger] final(sim).queues@[qi]).listening_workers@.contains(w)
                },
                None => {
                    &&& final(sim).queues@[queue as int].listening_workers@.len() == 0
                    &&& forall|x: int|
                        0 <= x < old(sim).queues@[queue as int].listening_workers@.len()
                            ==> old(sim).status_cells@[old(sim).workers@[(#[trigger] old(sim).queues@[queue as int].listening_workers@[x]) as int].status as int]
                            != Status::Running
                },
            },
    {
        let nq = sim.queues.len();
        let nw = sim.workers.len();
        proof {
            assert(nq as int == old(sim).queues@.len());
            assert(nw as int == old(sim).workers@.len());
            assert(old(sim).queues@.len() <= usize::MAX as int);
            assert(old(sim).workers@.len() <= usize::MAX as int);
        }
        while sim.queues[queue].listening_workers.len() > 0
            invariant
                sim.wf(),
                old(sim).queues@.len() <= usize::MAX as int,
                old(sim).workers@.len() <= usize::MAX as int,
                sim.queues@.len() == old(sim).queues@.len(),
                sim.workers@.len() == old(sim).workers@.len(),
                forall|qi: int|
                    0 <= qi < old(sim).queues@.len() ==> {
                        &&& (#[trigger] sim.queues@[qi]).name == old(sim).queues@[qi].name
                        &&& sim.queues@[qi].deque == old(sim).queues@[qi].deque
                    },
                forall|qi: int|
                    0 <= qi < old(sim).queues@.len() ==> forall|y: usize|
                        (#[trigger] sim.queues@[qi]).listening_workers@.contains(y) ==> old(sim).queues@[qi].listening_workers@.contains(y),
                forall|wi: int|
                    0 <= wi < old(sim).workers@.len() ==> {
                        &&& (#[trigger] sim.workers@[wi]).id == old(sim).workers@[wi].id
                        &&& sim.workers@[wi].subscribed_queues == old(sim).workers@[wi].subscribed_queues
                        &&& sim.workers@[wi].status == old(sim).workers@[wi].status
                    },
                sim.status_cells == old(sim).status_cells,
                sim.resources == old(sim).resources,
                sim.pools == old(sim).pools,
                sim.log == old(sim).log,
                sim.worker_tokens_checked_out == old(sim).worker_tokens_checked_out,
                sim.worker_token_duration == old(sim).worker_token_duration,
                sim.metric_reports == old(sim).metric_reports,
                sim.simulation == old(sim).simulation,
                sim.stopped == old(sim).stopped,
                forall|wi: int|
                    0 <= wi < old(sim).workers@.len() && old(sim).workers@[wi].state
                        != WorkerState::Listening ==> sim.workers@[wi] == old(sim).workers@[wi],
                forall|wi: int|
                    0 <= wi < old(sim).workers@.len() && sim.workers@[wi].state
                        == WorkerState::Listening ==> sim.workers@[wi] == old(sim).workers@[wi],
                forall|wi: int|
                    0 <= wi < old(sim).workers@.len() && sim.workers@[wi].state
                        == WorkerState::Terminated && old(sim).workers@[wi].state
                        == WorkerState::Listening ==> (sim.workers@[wi].up == false && old(sim).status_cells@[old(sim).workers@[wi].status as int] != Status::Running),
                forall|wi: int|
                    0 <= wi < old(sim).workers@.len() && old(sim).workers@[wi].state
                        == WorkerState::Listening && (#[trigger] sim.workers@[wi]).state
                        != WorkerState::Listening ==> (sim.workers@[wi].state
                        == WorkerState::Terminated && sim.workers@[wi].up == false),
                forall|x: int|
                    0 <= x < old(sim).queues@[queue as int].listening_workers@.len() ==> (sim.queues@[queue as int].listening_workers@.contains(
                        #[trigger] old(sim).queues@[queue as int].listening_workers@[x],
                    ) || old(sim).status_cells@[old(sim).workers@[(old(sim).queues@[queue as int].listening_workers@[x]) as int].status as int]
                        != Status::Running),
            decreases sim.queues@[queue as int].listening_workers@.len(),
        {
            let ghost smid = *sim;
            let n = sim.queues[queue].listening_workers.len();
            let idx = rand_below(&mut sim.queues[queue].rng, n);
            let chosen: usize = sim.queues[queue].listening_workers[idx];
            proof {
                assert(sim.workers@ == smid.workers@);
                assert forall|qi: int|
                    0 <= qi < smid.queues@.len() implies {
                    &&& (#[trigger] sim.queues@[qi]).name == smid.queues@[qi].name
                    &&& sim.queues@[qi].deque == smid.queues@[qi].deque
                    &&& sim.queues@[qi].listening_workers == smid.queues@[qi].listening_workers
                } by {}
                assert(smid.queue_wf(queue as int));
                assert(smid.queues@[queue as int].listening_workers@[idx as int] == chosen);
                assert(smid.queues@[queue as int].listening_workers@.contains(chosen));
                assert((chosen as int) < smid.workers@.len());
                assert(smid.workers@[chosen as int].state == WorkerState::Listening);
                assert(smid.workers@[chosen as int].subscribed_queues@.contains(queue));
            }
            let nsubs = sim.workers[chosen].subscribed_queues.len();
            let mut si: usize = 0;
            while si < nsubs
                invariant
                    si <= nsubs,
                    smid.wf(),
                    (chosen as int) < smid.workers@.len(),
                    nsubs == smid.workers@[chosen as int].subscribed_queues@.len(),
                    smid.workers@[chosen as int].state == WorkerState::Listening,
                    smid.queues@[queue as int].listening_workers@.contains(chosen),
                    sim.workers@ == smid.workers@,
                    sim.queues@.len() == smid.queues@.len(),
                    sim.status_cells == smid.status_cells,
                    sim.resources == smid.resources,
                    sim.pools == smid.pools,
                    sim.log == smid.log,
                    sim.worker_tokens_checked_out == smid.worker_tokens_checked_out,
                    sim.worker_token_duration == smid.worker_token_duration,
                    sim.metric_reports == smid.metric_reports,
                    sim.simulation == smid.simulation,
                    sim.stopped == smid.stopped,
                    forall|qi: int|
                        0 <= qi < smid.queues@.len() ==> {
                            &&& (#[trigger] sim.queues@[qi]).name == smid.queues@[qi].name
                            &&& sim.queues@[qi].deque == smid.queues@[qi].deque
                        },
                    forall|qi: int|
                        0 <= qi < smid.queues@.len() ==> ((#[trigger] sim.queues@[qi]).listening_workers
                            == smid.queues@[qi].listening_workers || exists|p: int|
                            0 <= p < smid.queues@[qi].listening_workers@.len()
                                && smid.queues@[qi].listening_workers@[p] == chosen
                                && sim.queues@[qi].listening_workers@
                                == smid.queues@[qi].listening_workers@.remove(p)),
                    forall|j: int|
                        0 <= j < si ==> !sim.queues@[(
                        #[trigger] smid.workers@[chosen as int].subscribed_queues@[j]) as int].listening_workers@.contains(
                            chosen,
                        ),
                decreases nsubs - si,
            {
                let qi = sim.workers[chosen].subscribed_queues[si];
                proof {
                    assert(smid.worker_wf(chosen as int));
                    assert(smid.workers@[chosen as int].subscribed_queues@[si as int] == qi);
                    assert((qi as int) < sim.queues@.len());
                    let l = sim.queues@[qi as int].listening_workers@;
                    assert(smid.queue_wf(qi as int));
                    if l != smid.queues@[qi as int].listening_workers@ {
                        let p = choose|p: int|
                            0 <= p < smid.queues@[qi as int].listening_workers@.len()
                                && smid.queues@[qi as int].listening_workers@[p] == chosen && l
                                == smid.queues@[qi as int].listening_workers@.remove(p);
                        lemma_remove_unique(smid.queues@[qi as int].listening_workers@, p, chosen);
                    }
                    assert(forall|a: int, b: int| 0 <= a < b < l.len() ==> l[a] != l[b]);
                }
                let ghost lpre = sim.queues@[qi as int].listening_workers@;
                remove_value(&mut sim.queues[qi].listening_workers, chosen);
                proof {
                    let l = sim.queues@[qi as int].listening_workers@;
                    let l0 = smid.queues@[qi as int].listening_workers@;
                    if lpre == l0 {
                        if l0.contains(chosen) {
                            let p = choose|p: int|
                                0 <= p < lpre.len() && lpre[p] == chosen && l == lpre.remove(p);
                            assert(0 <= p < l0.len() && l0[p] == chosen && l == l0.remove(p));
                        } else {
                            assert(l == l0);
                        }
                    } else {
                        let p0 = choose|p: int|
                            0 <= p < l0.len() && l0[p] == chosen && lpre == l0.remove(p);
                        lemma_remove_unique(l0, p0, chosen);
                        assert(!lpre.contains(chosen));
                        assert(l == lpre);
                        assert(0 <= p0 < l0.len() && l0[p0] == chosen && l == l0.remove(p0));
                    }
                    assert(sim.queues@[qi as int].listening_workers == smid.queues@[qi as int].listening_workers
                        || exists|p: int|
                        0 <= p < l0.len() && l0[p] == chosen && l == l0.remove(p));
                }
                si = si + 1;
                proof {
                    assert forall|j: int|
                        0 <= j < si implies !sim.queues@[(
                        #[trigger] smid.workers@[chosen as int].subscribed_queues@[j]) as int].listening_workers@.contains(
                        chosen,
                    ) by {
                        let qj = smid.workers@[chosen as int].subscribed_queues@[j];
                        if j == si - 1 {
                            assert(qj == qi);
                            assert(!sim.queues@[qi as int].listening_workers@.contains(chosen));
                        } else {
                            if qj == qi {
                                assert(!sim.queues@[qi as int].listening_workers@.contains(chosen));
                            }
                        }
                    }
                }
            }
            proof {
                assert forall|qi: int|
                    0 <= qi < sim.queues@.len() implies !(#[trigger] sim.queues@[qi]).listening_workers@.contains(
                    chosen,
                ) by {
                    if sim.queues@[qi].listening_workers@.contains(chosen) {
                        assert(smid.queues@[qi].listening_workers@.contains(chosen));
                        assert(smid.queue_wf(qi));
                        assert(smid.workers@[chosen as int].subscribed_queues@.contains(
                            qi as usize,
                        ));
                        let j = choose|j: int|
                            0 <= j < smid.workers@[chosen as int].subscribed_queues@.len()
                                && smid.workers@[chosen as int].subscribed_queues@[j] == qi as usize;
                        assert(!sim.queues@[qi].listening_workers@.contains(chosen));
                    }
                }
            }
            sim.workers[chosen].state = WorkerState::CheckedOut;
            proof {
                let ghost cur = *sim;
                assert forall|qi: int| 0 <= qi < cur.queues@.len() implies cur.queue_wf(qi) by {
                    assert(smid.queue_wf(qi));
                    let l = cur.queues@[qi].listening_workers@;
                    let l0 = smid.queues@[qi].listening_workers@;
                    if l != l0 {
                        let p = choose|p: int|
                            0 <= p < l0.len() && l0[p] == chosen && l == l0.remove(p);
                        lemma_remove_unique(l0, p, chosen);
                    }
                    assert forall|x: int|
                        0 <= x < l.len() implies {
                        &&& (#[trigger] l[x] as int) < cur.workers@.len()
                        &&& cur.workers@[l[x] as int].state == WorkerState::Listening
                        &&& cur.workers@[l[x] as int].subscribed_queues@.contains(qi as usize)
                    } by {
                        assert(l.contains(l[x]));
                        assert(l0.contains(l[x]));
                        assert(l[x] != chosen);
                        assert(smid.workers@[l[x] as int].state == WorkerState::Listening);
                    }
                }
                assert forall|wi: int| 0 <= wi < sim.workers@.len() implies sim.worker_wf(wi) by {
                    assert(smid.worker_wf(wi));
                    if wi != chosen && sim.workers@[wi].state == WorkerState::Listening {
                        assert(sim.workers@[wi] == smid.workers@[wi]);
                        assert(smid.workers@[wi].state == WorkerState::Listening);
                        assert((wi as usize) as int == wi);
                        assert forall|x: int|
                            0 <= x < sim.workers@[wi].subscribed_queues@.len() implies sim.queues@[(
                            #[trigger] sim.workers@[wi].subscribed_queues@[x]) as int].listening_workers@.contains(
                            wi as usize,
                        ) by {
                            let qx = sim.workers@[wi].subscribed_queues@[x];
                            assert(smid.queues@[qx as int].listening_workers@.contains(
                                wi as usize,
                            ));
                            assert(smid.queue_wf(qx as int));
                            let l = sim.queues@[qx as int].listening_workers@;
                            let l0 = smid.queues@[qx as int].listening_workers@;
                            if l != l0 {
                                let p = choose|p: int|
                                    0 <= p < l0.len() && l0[p] == chosen && l == l0.remove(p);
                                lemma_remove_unique(l0, p, chosen);
                                assert(wi as usize != chosen);
                                assert(l.contains(wi as usize));
                            }
                        }
                    }
                }
                assert forall|pi: int| 0 <= pi < sim.pools@.len() implies sim.pool_wf(pi) by {
                    assert(smid.pool_wf(pi));
                }
            }
            let scell = sim.workers[chosen].status;
            proof {
                assert(sim.worker_wf(chosen as int));
            }
            let stv = sim.status_cells[scell];
            if stv == Status::Running {
                return Some(chosen);
            }
            Worker::shutdown(sim, chosen);
            proof {
                assert(sim.queues@[queue as int].listening_workers@.len() < smid.queues@[queue as int].listening_workers@.len());
                assert(old(sim).status_cells@[old(sim).workers@[chosen as int].status as int]
                    != Status::Running);
                let lq = sim.queues@[queue as int].listening_workers@;
                let lq0 = smid.queues@[queue as int].listening_workers@;
                assert forall|x: int|
                    0 <= x < old(sim).queues@[queue as int].listening_workers@.len() implies (lq.contains(
                    #[trigger] old(sim).queues@[queue as int].listening_workers@[x],
                ) || old(sim).status_cells@[old(sim).workers@[(old(sim).queues@[queue as int].listening_workers@[x]) as int].status as int]
                    != Status::Running) by {
                    let y = old(sim).queues@[queue as int].listening_workers@[x];
                    if y != chosen && lq0.contains(y) {
                        if lq != lq0 {
                            let p = choose|p: int|
                                0 <= p < lq0.len() && lq0[p] == chosen && lq == lq0.remove(p);
                            assert(smid.queue_wf(queue as int));
                            lemma_remove_unique(lq0, p, chosen);
                        }
                        assert(lq.contains(y));
                    }
                }
            }
        }
        None
    }
}

/// The sole legal way a handler holds an exclusive worker; carries checkout
/// metadata for the duration metric.
pub struct WorkerToken {
    /// Index of the held worker in the worker arena.
    pub worker: usize,
    /// The held worker's 64-bit identity.
    pub worker_id: u64,
    pub checkout_timestamp: u64,
    /// Index of the queue the checkout originated from.
    pub originating_queue: usize,
}

impl Worker {
    /// Shut an exclusively held worker down: its `up` gauge goes to zero and
    /// it takes no further part in the simulation.
    pub fn shutdown(sim: &mut BaseQueueSimulation, worker: usize)
        requires
            old(sim).wf(),
            (worker as int) < old(sim).workers@.len(),
            old(sim).workers@[worker as int].state == WorkerState::CheckedOut,
        ensures
            final(sim).wf(),
            final(sim).workers@.len() == old(sim).workers@.len(),
            final(sim).workers@[worker as int].state == WorkerState::Terminated,
            final(sim).workers@[worker as int].up == false,
            final(sim).workers@[worker as int].id == old(sim).workers@[worker as int].id,
            final(sim).workers@[worker as int].subscribed_queues == old(sim).workers@[worker as int].subscribed_queues,
            final(sim).workers@[worker as int].status == old(sim).workers@[worker as int].status,
            forall|wi: int|
                0 <= wi < old(sim).workers@.len() && wi != worker ==> final(sim).workers@[wi]
                    == old(sim).workers@[wi],
            final(sim).queues == old(sim).queues,
            final(sim).status_cells == old(sim).status_cells,
            final(sim).resources == old(sim).resources,
            final(sim).pools == old(sim).pools,
            final(sim).log == old(sim).log,
            final(sim).worker_tokens_checked_out == old(sim).worker_tokens_checked_out,
            final(sim).worker_token_duration == old(sim).worker_token_duration,
            final(sim).metric_reports == old(sim).metric_reports,
            final(sim).simulation == old(sim).simulation,
            final(sim).stopped == old(sim).stopped,
    {
        sim.workers[worker].up = false;
        sim.workers[worker].state = WorkerState::Terminated;
        proof {
            assert forall|i: int| 0 <= i < sim.queues@.len() implies sim.queue_wf(i) by {
                assert(old(sim).queue_wf(i));
                assert forall|x: int|
                    0 <= x < sim.queues@[i].listening_workers@.len() implies sim.queues@[i].listening_workers@[x]
                    != worker by {
                    assert(old(sim).workers@[old(sim).queues@[i].listening_workers@[x] as int].state
                        == WorkerState::Listening);
                }
            }
            assert forall|i: int| 0 <= i < sim.workers@.len() implies sim.worker_wf(i) by {
                assert(old(sim).worker_wf(i));
            }
            assert forall|i: int| 0 <= i < sim.pools@.len() implies sim.pool_wf(i) by {
                assert(old(sim).pool_wf(i));
            }
        }
    }
}

/// Remove the single occurrence of `x` from `v`, if it is present; `v` must
/// hold no duplicates.
#[verifier::loop_isolation(false)]
fn remove_value(v: &mut Vec<usize>, x: usize)
    requires
        forall|i: int, j: int| 0 <= i < j < old(v)@.len() ==> old(v)@[i] != old(v)@[j],
    ensures
        !final(v)@.contains(x),
        old(v)@.contains(x) ==> exists|p: int|
            0 <= p < old(v)@.len() && old(v)@[p] == x && final(v)@ == old(v)@.remove(p),
        !old(v)@.contains(x) ==> final(v)@ == old(v)@,
        forall|y: usize| y != x ==> (final(v)@.contains(y) <==> old(v)@.contains(y)),
        forall|i: int, j: int| 0 <= i < j < final(v)@.len() ==> final(v)@[i] != final(v)@[j],
        forall|y: usize| final(v)@.contains(y) ==> old(v)@.contains(y),
{
    let mut i: usize = 0;
    while i < v.len()
        invariant
            i <= v@.len(),
            v@ == old(v)@,
            forall|j: int| 0 <= j < i ==> v@[j] != x,
        decreases v@.len() - i,
    {
        if v[i] == x {
            let ghost pre = v@;
            v.remove(i);
            proof {
                assert(v@ == pre.remove(i as int));
                assert(pre == old(v)@);
                pre.remove_ensures(i as int);
                assert forall|p: int| 0 <= p < v@.len() implies v@[p] == (if p < i {
                    pre[p]
                } else {
                    pre[p + 1]
                }) by {
                    if p < i {
                        assert(pre.remove(i as int)[p] == pre[p]);
                    } else {
                        assert(pre.remove(i as int)[p] == pre[p + 1]);
                    }
                }
                assert forall|p: int| 0 <= p < v@.len() implies v@[p] != x by {
                    if p >= i {
                        assert(pre[p + 1] != pre[i as int]);
                    }
                }
                assert forall|y: usize| y != x && pre.contains(y) implies v@.contains(y) by {
                    let p = choose|p: int| 0 <= p < pre.len() && pre[p] == y;
                    if p < i {
                        assert(v@[p] == y);
                    } else {
                        assert(p > i);
                        assert(v@[p - 1] == y);
                    }
                }
                assert forall|y: usize| v@.contains(y) implies pre.contains(y) by {
                    let p = choose|p: int| 0 <= p < v@.len() && v@[p] == y;
                    assert(pre.contains(if p < i {
                        pre[p]
                    } else {
                        pre[p + 1]
                    }));
                }
                assert forall|a: int, b: int| 0 <= a < b < v@.len() implies v@[a] != v@[b] by {
                    let a0: int = if a < i {
                        a
                    } else {
                        a + 1
                    };
                    let b0: int = if b < i {
                        b
                    } else {
                        b + 1
                    };
                    assert(v@[a] == pre[a0]);
                    assert(v@[b] == pre[b0]);
                    assert(pre[a0] != pre[b0]);
                }
            }
            return ;
        }
        i = i + 1;
    }
}

/// Removing one occurrence of `x` from a duplicate-free sequence leaves a
/// duplicate-free sequence without `x` and with everything else.
pub proof fn lemma_remove_unique(s: Seq<usize>, p: int, x: usize)
    requires
        forall|i: int, j: int| 0 <= i < j < s.len() ==> s[i] != s[j],
        0 <= p < s.len(),
        s[p] == x,
    ensures
        s.remove(p).len() == s.len() - 1,
        !s.remove(p).contains(x),
        forall|y: usize| y != x ==> (s.remove(p).contains(y) <==> s.contains(y)),
        forall|y: usize| s.remove(p).contains(y) ==> s.contains(y),
        forall|i: int, j: int| 0 <= i < j < s.remove(p).len() ==> s.remove(p)[i] != s.remove(p)[j],
{
    s.remove_ensures(p);
    let r = s.remove(p);
    assert forall|i: int| 0 <= i < r.len() implies r[i] == (if i < p {
        s[i]
    } else {
        s[i + 1]
    }) by {
        if i < p {
            assert(s.remove(p)[i] == s[i]);
        } else {
            assert(s.remove(p)[i] == s[i + 1]);
        }
    }
    assert forall|i: int| 0 <= i < r.len() implies r[i] != x by {
        if i >= p {
            assert(s[i + 1] != s[p]);
        }
    }
    assert forall|y: usize| y != x && s.contains(y) implies r.contains(y) by {
        let q = choose|q: int| 0 <= q < s.len() && s[q] == y;
        if q < p {
            assert(r[q] == y);
        } else {
            assert(q > p);
            assert(r[q - 1] == y);
        }
    }
    assert forall|y: usize| r.contains(y) implies s.contains(y) by {
        let q = choose|q: int| 0 <= q < r.len() && r[q] == y;
        assert(s.contains(if q < p {
            s[q]
        } else {
            s[q + 1]
        }));
    }
    assert forall|i: int, j: int| 0 <= i < j < r.len() implies r[i] != r[j] by {
        let i0: int = if i < p {
            i
        } else {
            i + 1
        };
        let j0: int = if j < p {
            j
        } else {
            j + 1
        };
        assert(r[i] == s[i0]);
        assert(r[j] == s[j0]);
        assert(s[i0] != s[j0]);
    }
}

/// A queue of pending work with a set of listening workers. Its invariant:
/// the deque is empty whenever any worker is listening.
pub struct Queue {
    pub name: String,
    /// Indices into the worker arena, unique.
    pub listening_workers: Vec<usize>,
    /// Pending work, first in first out: pushed at the back, served from the
    /// front.
    pub deque: Vec<Work>,
    pub rng: rand_xoshiro::Xoshiro256StarStar,
}

impl BaseQueueSimulation {
    /// Whether some queue the worker subscribes to has pending work.
    pub open spec fn has_nonempty_subscribed(self, worker: usize) -> bool {
        exists|x: int|
            0 <= x < self.workers@[worker as int].subscribed_queues@.len() && self.queues@[(
            #[trigger] self.workers@[worker as int].subscribed_queues@[x]) as int].deque@.len() > 0
    }
}

/// No worker is simultaneously enrolled in any queue's listening set and
/// held exclusively through a token: in a well-formed simulation a
/// checked-out worker is listed nowhere.
pub proof fn lemma_checked_out_not_listening(sim: BaseQueueSimulation, w: int)
    requires
        sim.wf(),
        0 <= w < sim.workers@.len(),
        sim.workers@[w].state == WorkerState::CheckedOut,
    ensures
        forall|qi: int, i: int|
            0 <= qi < sim.queues@.len() && 0 <= i < sim.queues@[qi].listening_workers@.len()
                ==> ((#[trigger] sim.queues@[qi].listening_workers@[i]) as int) != w,
{
    assert forall|qi: int, i: int|
        0 <= qi < sim.queues@.len() && 0 <= i < sim.queues@[qi].listening_workers@.len() implies ((
    #[trigger] sim.queues@[qi].listening_workers@[i]) as int) != w by {
        assert(sim.queue_wf(qi));
        assert(sim.workers@[sim.queues@[qi].listening_workers@[i] as int].state
            == WorkerState::Listening);
    }
}

/// An edit a queue's deque can undergo: work arrives at the back, or the
/// head is served.
pub enum DequeOp {
    PushBack { work: Work },
    PopFront,
}

/// Run a sequence of deque edits from an initial deque.
pub open spec fn apply_deque_ops(s: Seq<Work>, ops: Seq<DequeOp>) -> Seq<Work>
    decreases ops.len(),
{
    if ops.len() == 0 {
        s
    } else {
        let s1 = match ops[0] {
            DequeOp::PushBack { work } => s.push(work),
            DequeOp::PopFront => s.subrange(1, s.len() as int),
        };
        apply_deque_ops(s1, ops.subrange(1, ops.len() as int))
    }
}

/// Edits are valid when the head is only served while work is pending.
pub open spec fn deque_ops_valid(s: Seq<Work>, ops: Seq<DequeOp>) -> bool
    decreases ops.len(),
{
    if ops.len() == 0 {
        true
    } else {
        match ops[0] {
            DequeOp::PushBack { work } => deque_ops_valid(
                s.push(work),
                ops.subrange(1, ops.len() as int),
            ),
            DequeOp::PopFront => s.len() > 0 && deque_ops_valid(
                s.subrange(1, s.len() as int),
                ops.subrange(1, ops.len() as int),
            ),
        }
    }
}

/// The work the edits push, in arrival order.
pub open spec fn deque_pushes(ops: Seq<DequeOp>) -> Seq<Work>
    decreases ops.len(),
{
    if ops.len() == 0 {
        Seq::empty()
    } else {
        match ops[0] {
            DequeOp::PushBack { work } => seq![work] + deque_pushes(
                ops.subrange(1, ops.len() as int),
            ),
            DequeOp::PopFront => deque_pushes(ops.subrange(1, ops.len() as int)),
        }
    }
}

/// How many head items the edits serve.
pub open spec fn deque_pops(ops: Seq<DequeOp>) -> nat
    decreases ops.len(),
{
    if ops.len() == 0 {
        0
    } else {
        (match ops[0] {
            DequeOp::PushBack { work } => 0nat,
            DequeOp::PopFront => 1nat,
        }) + deque_pops(ops.subrange(1, ops.len() as int))
    }
}

/// The dispatch deque is first in, first out. A queue's deque only ever
/// takes work at the back and serves work from the front, so after any
/// valid sequence of edits exactly the oldest arrivals have been served:
/// work enqueued earlier is dispatched no later than work enqueued after
/// it, and the remaining deque is the arrival order with its served prefix
/// removed.
pub proof fn lemma_deque_fifo(s: Seq<Work>, ops: Seq<DequeOp>)
    requires
        deque_ops_valid(s, ops),
    ensures
        deque_pops(ops) <= s.len() + deque_pushes(ops).len(),
        apply_deque_ops(s, ops) == (s + deque_pushes(ops)).subrange(
            deque_pops(ops) as int,
            (s.len() + deque_pushes(ops).len()) as int,
        ),
    decreases ops.len(),
{
    if ops.len() == 0 {
        assert((s + deque_pushes(ops)).subrange(0, s.len() as int) =~= s);
    } else {
        let rest = ops.subrange(1, ops.len() as int);
        match ops[0] {
            DequeOp::PushBack { work } => {
                lemma_deque_fifo(s.push(work), rest);
                assert(deque_pushes(ops) == seq![work] + deque_pushes(rest));
                assert(deque_pops(ops) == deque_pops(rest));
                assert(s.push(work) + deque_pushes(rest) =~= s + deque_pushes(ops));
                assert(apply_deque_ops(s, ops) == apply_deque_ops(s.push(work), rest));
                assert((s.push(work) + deque_pushes(rest)).subrange(
                    deque_pops(rest) as int,
                    (s.len() + 1 + deque_pushes(rest).len()) as int,
                ) =~= (s + deque_pushes(ops)).subrange(
                    deque_pops(ops) as int,
                    (s.len() + deque_pushes(ops).len()) as int,
                ));
            },
            DequeOp::PopFront => {
                let s1 = s.subrange(1, s.len() as int);
                lemma_deque_fifo(s1, rest);
                assert(deque_pushes(ops) == deque_pushes(rest));
                assert(deque_pops(ops) == 1 + deque_pops(rest));
                assert(apply_deque_ops(s, ops) == apply_deque_ops(s1, rest));
                let la = s1 + deque_pushes(rest);
                let lb = s + deque_pushes(ops);
                let ra = la.subrange(
                    deque_pops(rest) as int,
                    (s1.len() + deque_pushes(rest).len()) as int,
                );
                let rb = lb.subrange(
                    deque_pops(ops) as int,
                    (s.len() + deque_pushes(ops).len()) as int,
                );
                assert forall|x: int| 0 <= x < ra.len() implies (#[trigger] ra[x]) == rb[x] by {
                    assert(ra[x] == la[x + deque_pops(rest)]);
                    assert(rb[x] == lb[x + deque_pops(ops)]);
                    if x + deque_pops(rest) < s1.len() {
                        assert(la[x + deque_pops(rest)] == s1[x + deque_pops(rest)]);
                        assert(s1[x + deque_pops(rest)] == s[x + deque_pops(rest) + 1]);
                        assert(lb[x + deque_pops(ops)] == s[x + deque_pops(ops)]);
                    } else {
                        assert(la[x + deque_pops(rest)] == deque_pushes(rest)[x + deque_pops(rest)
                            - s1.len()]);
                        assert(lb[x + deque_pops(ops)] == deque_pushes(ops)[x + deque_pops(ops)
                            - s.len()]);
                    }
                }
                assert(ra =~= rb);
            },
        }
    }
}

/// Record a token checkout: extend the `worker_tokens_checked_out` counter
/// family, log the checkout, and mint the token.
fn checkout(
    sim: &mut BaseQueueSimulation,
    worker: usize,
    queue: usize,
    timestamp: u64,
    tag: u64,
) -> (t: WorkerToken)
    requires
        old(sim).wf(),
        (worker as int) < old(sim).workers@.len(),
        (queue as int) < old(sim).queues@.len(),
    ensures
        final(sim).wf(),
        t == (WorkerToken {
            worker,
            worker_id: old(sim).workers@[worker as int].id,
            checkout_timestamp: timestamp,
            originating_queue: queue,
        }),
        final(sim).worker_tokens_checked_out@ == old(sim).worker_tokens_checked_out@.push(
            CheckoutRecord { worker_id: old(sim).workers@[worker as int].id, queue, timestamp },
        ),
        final(sim).log@ == old(sim).log@.push(
            LogEntry { timestamp, kind: LogKind::Checkout, tag },
        ),
        final(sim).queues == old(sim).queues,
        final(sim).workers == old(sim).workers,
        final(sim).status_cells == old(sim).status_cells,
        final(sim).resources == old(sim).resources,
        final(sim).pools == old(sim).pools,
        final(sim).worker_token_duration == old(sim).worker_token_duration,
        final(sim).metric_reports == old(sim).metric_reports,
        final(sim).simulation == old(sim).simulation,
        final(sim).stopped == old(sim).stopped,
{
    let worker_id = sim.workers[worker].id;
    sim.worker_tokens_checked_out.push(CheckoutRecord { worker_id, queue, timestamp });
    sim.log.push(LogEntry { timestamp, kind: LogKind::Checkout, tag });
    proof {
        lemma_count_invoked_push(
            old(sim).log@,
            LogEntry { timestamp, kind: LogKind::Checkout, tag },
        );
        lemma_wf_same_components(*old(sim), *sim);
    }
    WorkerToken { worker, worker_id, checkout_timestamp: timestamp, originating_queue: queue }
}

impl Worker {
    /// A checked-out worker becomes available: raise its `up` gauge; shut it
    /// down instead if it is no longer meant to run; pick up the head of a
    /// uniformly chosen non-empty subscribed queue; or, with nothing
    /// pending, enrol with every subscribed queue and listen.
    #[verifier::loop_isolation(false)]
    #[verifier::rlimit(100)]
    #[verifier::spinoff_prover]
    pub fn listen(sim: &mut BaseQueueSimulation, worker: usize, timestamp: u64) -> (r: Vec<
        ProposedEvent,
    >)
        requires
            old(sim).wf(),
            (worker as int) < old(sim).workers@.len(),
            old(sim).workers@[worker as int].state == WorkerState::CheckedOut,
        ensures
            final(sim).wf(),
            old(sim).evolves_to(*final(sim)),
            final(sim).workers@.len() == old(sim).workers@.len(),
            final(sim).queues@.len() == old(sim).queues@.len(),
            final(sim).status_cells == old(sim).status_cells,
            final(sim).resources == old(sim).resources,
            final(sim).pools == old(sim).pools,
            final(sim).metric_reports == old(sim).metric_reports,
            final(sim).worker_token_duration == old(sim).worker_token_duration,
            final(sim).simulation == old(sim).simulation,
            final(sim).stopped == old(sim).stopped,
            forall|wi: int|
                0 <= wi < old(sim).workers@.len() && wi != worker ==> final(sim).workers@[wi]
                    == old(sim).workers@[wi],
            BaseQueueSimulation::log_extended_at(old(sim).log@, final(sim).log@, timestamp),
            count_invoked(final(sim).log@) == count_invoked(old(sim).log@),
            forall|i: int|
                0 <= i < r@.len() ==> event_tokens_fresh(r@[i], final(sim).workers@.len() as int, timestamp),
            forall|i: int|
                0 <= i < r@.len() ==> ((#[trigger] r@[i]).handler matches Handler::RestoreTokens { tokens, tag }),
            final(sim).workers@[worker as int].id == old(sim).workers@[worker as int].id,
            old(sim).status_cells@[old(sim).workers@[worker as int].status as int]
                != Status::Running ==> {
                &&& final(sim).workers@[worker as int].state == WorkerState::Terminated
                &&& final(sim).workers@[worker as int].up == false
                &&& r@.len() == 0
                &&& final(sim).queues == old(sim).queues
                &&& final(sim).worker_tokens_checked_out == old(sim).worker_tokens_checked_out
                &&& final(sim).log == old(sim).log
            },
            old(sim).status_cells@[old(sim).workers@[worker as int].status as int]
                == Status::Running ==> final(sim).workers@[worker as int].up == true,
            old(sim).status_cells@[old(sim).workers@[worker as int].status as int]
                == Status::Running ==> (final(sim).workers@[worker as int].state
                == WorkerState::Listening || final(sim).workers@[worker as int].state
                == WorkerState::CheckedOut),
            old(sim).status_cells@[old(sim).workers@[worker as int].status as int]
                == Status::Running && !old(sim).has_nonempty_subscribed(worker) ==> {
                &&& final(sim).workers@[worker as int].state == WorkerState::Listening
                &&& r@.len() == 0
                &&& forall|qi: int|
                    0 <= qi < old(sim).queues@.len() ==> (#[trigger] final(sim).queues@[qi]).deque
                        == old(sim).queues@[qi].deque
                &&& forall|qi: int|
                    0 <= qi < old(sim).queues@.len() ==> (#[trigger] final(sim).queues@[qi]).listening_workers@ == if old(sim).workers@[worker as int].subscribed_queues@.contains(
                        qi as usize,
                    ) {
                        old(sim).queues@[qi].listening_workers@.push(worker)
                    } else {
                        old(sim).queues@[qi].listening_workers@
                    }
                &&& final(sim).worker_tokens_checked_out == old(sim).worker_tokens_checked_out
                &&& final(sim).log == old(sim).log
            },
            old(sim).status_cells@[old(sim).workers@[worker as int].status as int]
                == Status::Running && old(sim).has_nonempty_subscribed(worker) ==> exists|qc: usize|
                {
                    &&& old(sim).workers@[worker as int].subscribed_queues@.contains(qc)
                    &&& (qc as int) < old(sim).queues@.len()
                    &&& old(sim).queues@[qc as int].deque@.len() > 0
                    &&& final(sim).queues@[qc as int].deque@ == old(sim).queues@[qc as int].deque@.subrange(
                        1,
                        old(sim).queues@[qc as int].deque@.len() as int,
                    )
                    &&& final(sim).queues@[qc as int].name == old(sim).queues@[qc as int].name
                    &&& final(sim).queues@[qc as int].listening_workers == old(sim).queues@[qc as int].listening_workers
                    &&& forall|qi: int|
                        0 <= qi < old(sim).queues@.len() && qi != qc ==> (#[trigger] final(sim).queues@[qi]) == old(sim).queues@[qi]
                    &&& final(sim).workers@[worker as int].state == WorkerState::CheckedOut
                    &&& final(sim).worker_tokens_checked_out@ == old(sim).worker_tokens_checked_out@.push(
                        CheckoutRecord {
                            worker_id: old(sim).workers@[worker as int].id,
                            queue: qc,
                            timestamp,
                        },
                    )
                    &&& final(sim).log@ == old(sim).log@.push(
                        LogEntry {
                            timestamp,
                            kind: LogKind::Checkout,
                            tag: old(sim).queues@[qc as int].deque@[0].tag,
                        },
                    )
                    &&& r@.len() == 1
                    &&& r@[0].due_time == old(sim).queues@[qc as int].deque@[0].restore_delay
                    &&& (r@[0].handler matches Handler::RestoreTokens { tokens, tag } && tokens@
                        =~= seq![
                        WorkerToken {
                            worker,
                            worker_id: old(sim).workers@[worker as int].id,
                            checkout_timestamp: timestamp,
                            originating_queue: qc,
                        },
                    ] && tag == old(sim).queues@[qc as int].deque@[0].tag)
                },
    {
        let nq = sim.queues.len();
        let nw = sim.workers.len();
        proof {
            assert(nq as int == old(sim).queues@.len());
            assert(nw as int == old(sim).workers@.len());
            assert(old(sim).queues@.len() <= usize::MAX as int);
            assert(old(sim).workers@.len() <= usize::MAX as int);
        }
        let ghost pre = *sim;
        sim.workers[worker].up = true;
        proof {
            lemma_wf_worker_soft_update(pre, *sim, worker as int);
            assert(sim.worker_wf(worker as int));
        }
        let scell = sim.workers[worker].status;
        let stv = sim.status_cells[scell];
        if stv != Status::Running {
            Worker::shutdown(sim, worker);
            proof {
                lemma_prefix_refl(old(sim).log@);
                lemma_prefix_refl(old(sim).worker_tokens_checked_out@);
                lemma_prefix_refl(old(sim).worker_token_duration@);
                lemma_prefix_refl(old(sim).metric_reports@);
            }
            return Vec::new();
        }
        let nsubs = sim.workers[worker].subscribed_queues.len();
        let mut nonempty: Vec<usize> = Vec::new();
        let mut x: usize = 0;
        while x < nsubs
            invariant
                x <= nsubs,
                forall|i: int|
                    0 <= i < nonempty@.len() ==> {
                        &&& sim.workers@[worker as int].subscribed_queues@.contains(
                            #[trigger] nonempty@[i],
                        )
                        &&& (nonempty@[i] as int) < sim.queues@.len()
                        &&& sim.queues@[nonempty@[i] as int].deque@.len() > 0
                    },
                forall|j: int|
                    0 <= j < x ==> (sim.queues@[(
                    #[trigger] sim.workers@[worker as int].subscribed_queues@[j]) as int].deque@.len()
                        == 0 || nonempty@.contains(
                        sim.workers@[worker as int].subscribed_queues@[j],
                    )),
            decreases nsubs - x,
        {
            let qi = sim.workers[worker].subscribed_queues[x];
            proof {
                assert(sim.worker_wf(worker as int));
                assert(sim.workers@[worker as int].subscribed_queues@[x as int] == qi);
                assert(sim.workers@[worker as int].subscribed_queues@.contains(qi));
                assert((qi as int) < sim.queues@.len());
            }
            let ghost ne0 = nonempty@;
            if sim.queues[qi].deque.len() > 0 {
                nonempty.push(qi);
                proof {
                    assert(nonempty@ == ne0.push(qi));
                    assert(nonempty@[ne0.len() as int] == qi);
                    assert(nonempty@.contains(qi));
                    assert forall|y: usize| ne0.contains(y) implies nonempty@.contains(y) by {
                        let p = choose|p: int| 0 <= p < ne0.len() && ne0[p] == y;
                        assert(nonempty@[p] == y);
                    }
                }
            }
            x = x + 1;
        }
        if nonempty.len() == 0 {
            proof {
                assert(!sim.has_nonempty_subscribed(worker)) by {
                    if sim.has_nonempty_subscribed(worker) {
                        let x0 = choose|x0: int|
                            0 <= x0 < sim.workers@[worker as int].subscribed_queues@.len()
                                && sim.queues@[(sim.workers@[worker as int].subscribed_queues@[x0]) as int].deque@.len()
                                > 0;
                        assert(nonempty@.contains(
                            sim.workers@[worker as int].subscribed_queues@[x0],
                        ));
                    }
                }
                assert(!old(sim).has_nonempty_subscribed(worker));
            }
            sim.workers[worker].state = WorkerState::Listening;
            let ghost sbase = *sim;
            let mut x2: usize = 0;
            while x2 < nsubs
                invariant
                    x2 <= nsubs,
                    sim.workers@ == sbase.workers@,
                    sim.queues@.len() == sbase.queues@.len(),
                    sim.status_cells == sbase.status_cells,
                    sim.resources == sbase.resources,
                    sim.pools == sbase.pools,
                    sim.log == sbase.log,
                    sim.worker_tokens_checked_out == sbase.worker_tokens_checked_out,
                    sim.worker_token_duration == sbase.worker_token_duration,
                    sim.metric_reports == sbase.metric_reports,
                    sim.simulation == sbase.simulation,
                    sim.stopped == sbase.stopped,
                    forall|qi: int|
                        0 <= qi < sbase.queues@.len() ==> {
                            &&& (#[trigger] sim.queues@[qi]).name == sbase.queues@[qi].name
                            &&& sim.queues@[qi].deque == sbase.queues@[qi].deque
                            &&& sim.queues@[qi].rng == sbase.queues@[qi].rng
                        },
                    forall|qi: int|
                        0 <= qi < sbase.queues@.len() ==> (#[trigger] sim.queues@[qi]).listening_workers@
                            == if (exists|j: int|
                            0 <= j < x2 && sbase.workers@[worker as int].subscribed_queues@[j]
                                == qi as usize) {
                            sbase.queues@[qi].listening_workers@.push(worker)
                        } else {
                            sbase.queues@[qi].listening_workers@
                        },
                decreases nsubs - x2,
            {
                let qi = sim.workers[worker].subscribed_queues[x2];
                proof {
                    assert(pre.worker_wf(worker as int));
                    assert(sbase.workers@[worker as int].subscribed_queues == pre.workers@[worker as int].subscribed_queues);
                    assert(sbase.workers@[worker as int].subscribed_queues@[x2 as int] == qi);
                    assert((qi as int) < sim.queues@.len());
                    assert forall|j: int| 0 <= j < x2 implies sbase.workers@[worker as int].subscribed_queues@[j]
                        != qi by {
                        assert(pre.workers@[worker as int].subscribed_queues@[j] != pre.workers@[worker as int].subscribed_queues@[x2 as int]);
                    }
                    assert(sim.queues@[qi as int].listening_workers@ == sbase.queues@[qi as int].listening_workers@);
                }
                sim.queues[qi].listening_workers.push(worker);
                x2 = x2 + 1;
                proof {
                    assert(sim.queues@[qi as int].listening_workers@ == sbase.queues@[qi as int].listening_workers@.push(worker));
                    assert forall|qj: int|
                        0 <= qj < sbase.queues@.len() implies (#[trigger] sim.queues@[qj]).listening_workers@
                        == if (exists|j: int|
                        0 <= j < x2 && sbase.workers@[worker as int].subscribed_queues@[j]
                            == qj as usize) {
                        sbase.queues@[qj].listening_workers@.push(worker)
                    } else {
                        sbase.queues@[qj].listening_workers@
                    } by {
                        if qj == qi as int {
                            assert(sbase.workers@[worker as int].subscribed_queues@[x2 - 1]
                                == qj as usize);
                        } else {
                            assert((qj as usize) as int == qj);
                            if exists|j: int|
                                0 <= j < x2 && sbase.workers@[worker as int].subscribed_queues@[j]
                                    == qj as usize {
                                let j = choose|j: int|
                                    0 <= j < x2
                                        && sbase.workers@[worker as int].subscribed_queues@[j]
                                        == qj as usize;
                                assert(j != x2 - 1);
                                assert(0 <= j < x2 - 1
                                    && sbase.workers@[worker as int].subscribed_queues@[j]
                                    == qj as usize);
                            }
                        }
                    }
                }
            }
            proof {
                let fin = *sim;
                assert(x2 == nsubs);
                assert(sbase.workers@[worker as int].subscribed_queues == old(sim).workers@[worker as int].subscribed_queues);
                assert(nsubs == old(sim).workers@[worker as int].subscribed_queues@.len());
                assert(sbase.queues@ == old(sim).queues@);
                assert forall|qi: int|
                    0 <= qi < old(sim).queues@.len() implies (#[trigger] fin.queues@[qi]).listening_workers@
                    == if old(sim).workers@[worker as int].subscribed_queues@.contains(qi as usize) {
                    old(sim).queues@[qi].listening_workers@.push(worker)
                } else {
                    old(sim).queues@[qi].listening_workers@
                } by {
                    if old(sim).workers@[worker as int].subscribed_queues@.contains(qi as usize) {
                        let j = choose|j: int|
                            0 <= j < old(sim).workers@[worker as int].subscribed_queues@.len()
                                && old(sim).workers@[worker as int].subscribed_queues@[j] == qi as usize;
                        assert(0 <= j < x2 && sbase.workers@[worker as int].subscribed_queues@[j]
                            == qi as usize);
                    } else {
                        assert forall|j: int| 0 <= j < x2 implies sbase.workers@[worker as int].subscribed_queues@[j]
                            != qi as usize by {
                            if sbase.workers@[worker as int].subscribed_queues@[j] == qi as usize {
                                assert(old(sim).workers@[worker as int].subscribed_queues@.contains(
                                    qi as usize,
                                ));
                            }
                        }
                    }
                }
                assert forall|qi: int| 0 <= qi < sim.queues@.len() implies sim.queue_wf(qi) by {
                    assert(old(sim).queue_wf(qi));
                    let l0 = old(sim).queues@[qi].listening_workers@;
                    let l = sim.queues@[qi].listening_workers@;
                    assert forall|y: usize| l0.contains(y) implies (y as int) < sim.workers@.len()
                        && y != worker by {
                        let p0 = choose|p0: int| 0 <= p0 < l0.len() && l0[p0] == y;
                        assert(old(sim).workers@[y as int].state == WorkerState::Listening);
                    }
                    if old(sim).workers@[worker as int].subscribed_queues@.contains(qi as usize) {
                        assert(l == l0.push(worker));
                        assert forall|i: int| 0 <= i < l.len() implies l[i] == (if i < l0.len() {
                            l0[i]
                        } else {
                            worker
                        }) by {}
                        assert forall|i: int| 0 <= i < l.len() implies {
                            &&& (#[trigger] l[i] as int) < sim.workers@.len()
                            &&& sim.workers@[l[i] as int].state == WorkerState::Listening
                            &&& sim.workers@[l[i] as int].subscribed_queues@.contains(qi as usize)
                        } by {
                            if i < l0.len() {
                                assert(l0.contains(l0[i]));
                            }
                        }
                        assert forall|a: int, b: int| 0 <= a < b < l.len() implies l[a] != l[b] by {
                            if b < l0.len() {
                            } else {
                                assert(l0.contains(l0[a]));
                            }
                        }
                        assert(sim.queues@[qi].deque@.len() == 0) by {
                            let x3 = choose|x3: int|
                                0 <= x3 < old(sim).workers@[worker as int].subscribed_queues@.len()
                                    && old(sim).workers@[worker as int].subscribed_queues@[x3]
                                    == qi as usize;
                            if old(sim).queues@[(old(sim).workers@[worker as int].subscribed_queues@[x3]) as int].deque@.len()
                                > 0 {
                                assert(old(sim).has_nonempty_subscribed(worker));
                            }
                            assert(sim.queues@[qi].deque == old(sim).queues@[qi].deque);
                        }
                    } else {
                        assert(l == l0);
                    }
                }
                assert forall|wi: int| 0 <= wi < sim.workers@.len() implies sim.worker_wf(wi) by {
                    assert(old(sim).worker_wf(wi));
                    if sim.workers@[wi].state == WorkerState::Listening {
                        assert forall|i: int|
                            0 <= i < sim.workers@[wi].subscribed_queues@.len() implies sim.queues@[(
                            #[trigger] sim.workers@[wi].subscribed_queues@[i]) as int].listening_workers@.contains(
                            wi as usize,
                        ) by {
                            let qx = sim.workers@[wi].subscribed_queues@[i];
                            let l0 = old(sim).queues@[qx as int].listening_workers@;
                            let l = sim.queues@[qx as int].listening_workers@;
                            if wi == worker {
                                assert(old(sim).workers@[worker as int].subscribed_queues@.contains(
                                    qx,
                                ));
                                assert(l == l0.push(worker));
                                assert(l[l0.len() as int] == worker);
                            } else {
                                assert(old(sim).workers@[wi].state == WorkerState::Listening);
                                assert(l0.contains(wi as usize));
                                let p0 = choose|p0: int| 0 <= p0 < l0.len() && l0[p0] == wi as usize;
                                assert(l[p0] == wi as usize);
                            }
                        }
                    }
                }
                assert forall|pi: int| 0 <= pi < sim.pools@.len() implies sim.pool_wf(pi) by {
                    assert(old(sim).pool_wf(pi));
                }
                lemma_prefix_refl(old(sim).log@);
                lemma_prefix_refl(old(sim).worker_tokens_checked_out@);
                lemma_prefix_refl(old(sim).worker_token_duration@);
                lemma_prefix_refl(old(sim).metric_reports@);
            }
            return Vec::new();
        }
        let ghost spick = *sim;
        let nne = nonempty.len();
        let ci = rand_below(&mut sim.workers[worker].rng, nne);
        proof {
            assert(sim.workers@ == spick.workers@.update(
                worker as int,
                sim.workers@[worker as int],
            ));
            lemma_wf_worker_soft_update(spick, *sim, worker as int);
        }
        let qc = nonempty[ci];
        let ghost sdrop = *sim;
        let work = sim.queues[qc].deque.remove(0);
        proof {
            assert forall|qi: int| 0 <= qi < sim.queues@.len() implies sim.queue_wf(qi) by {
                assert(sdrop.queue_wf(qi));
                if qi == qc as int {
                    assert(sdrop.queues@[qi].deque@.len() > 0);
                    assert(sdrop.queues@[qi].listening_workers@.len() == 0);
                }
            }
            assert forall|wi: int| 0 <= wi < sim.workers@.len() implies sim.worker_wf(wi) by {
                assert(sdrop.worker_wf(wi));
            }
            assert forall|pi: int| 0 <= pi < sim.pools@.len() implies sim.pool_wf(pi) by {
                assert(sdrop.pool_wf(pi));
            }
        }
        let token = checkout(sim, worker, qc, timestamp, work.tag);
        let mut tokens: Vec<WorkerToken> = Vec::new();
        tokens.push(token);
        let mut r: Vec<ProposedEvent> = Vec::new();
        r.push(
            ProposedEvent {
                due_time: work.restore_delay,
                handler: Handler::RestoreTokens { tokens, tag: work.tag },
            },
        );
        proof {
            assert(old(sim).workers@[worker as int].subscribed_queues@.contains(qc));
            assert(old(sim).queues@[qc as int].deque@[0] == work);
            assert(event_tokens_fresh(r@[0], sim.workers@.len() as int, timestamp));
            lemma_prefix_push(
                old(sim).log@,
                LogEntry { timestamp, kind: LogKind::Checkout, tag: work.tag },
            );
            lemma_prefix_push(
                old(sim).worker_tokens_checked_out@,
                CheckoutRecord {
                    worker_id: old(sim).workers@[worker as int].id,
                    queue: qc,
                    timestamp,
                },
            );
            lemma_prefix_refl(old(sim).worker_token_duration@);
            lemma_prefix_refl(old(sim).metric_reports@);
        }
        r
    }
}

impl Queue {
    /// Offer `inner_handler` to the queue. Pending work waits its turn: a
    /// non-empty deque only grows. An idle queue tries to check a listening
    /// worker out and hand the work over at once; with no worker available
    /// the work joins the deque.
    #[verifier::rlimit(100)]
    #[verifier::spinoff_prover]
    pub fn enqueued_handler_inner(
        sim: &mut BaseQueueSimulation,
        queue: usize,
        inner_handler: Work,
        timestamp: u64,
    ) -> (r: Vec<ProposedEvent>)
        requires
            old(sim).wf(),
            (queue as int) < old(sim).queues@.len(),
        ensures
            final(sim).wf(),
            old(sim).evolves_to(*final(sim)),
            final(sim).workers@.len() == old(sim).workers@.len(),
            final(sim).queues@.len() == old(sim).queues@.len(),
            final(sim).status_cells == old(sim).status_cells,
            final(sim).resources == old(sim).resources,
            final(sim).pools == old(sim).pools,
            final(sim).metric_reports == old(sim).metric_reports,
            final(sim).worker_token_duration == old(sim).worker_token_duration,
            final(sim).simulation == old(sim).simulation,
            final(sim).stopped == old(sim).stopped,
            BaseQueueSimulation::log_extended_at(old(sim).log@, final(sim).log@, timestamp),
            count_invoked(final(sim).log@) == count_invoked(old(sim).log@),
            forall|i: int|
                0 <= i < r@.len() ==> event_tokens_fresh(
                    r@[i],
                    final(sim).workers@.len() as int,
                    timestamp,
                ),
            forall|i: int|
                0 <= i < r@.len() ==> ((#[trigger] r@[i]).handler matches Handler::RestoreTokens { tokens, tag }),
            forall|qi: int|
                0 <= qi < old(sim).queues@.len() && qi != queue ==> (#[trigger] final(sim).queues@[qi]).deque == old(sim).queues@[qi].deque,
            old(sim).queues@[queue as int].deque@.len() > 0 ==> {
                &&& final(sim).queues@[queue as int].deque@ == old(sim).queues@[queue as int].deque@.push(inner_handler)
                &&& r@.len() == 0
                &&& final(sim).workers == old(sim).workers
                &&& final(sim).worker_tokens_checked_out == old(sim).worker_tokens_checked_out
                &&& final(sim).log == old(sim).log
            },
            old(sim).queues@[queue as int].deque@.len() == 0 ==> ({
                ||| {
                    &&& final(sim).queues@[queue as int].deque@ == old(sim).queues@[queue as int].deque@.push(inner_handler)
                    &&& r@.len() == 0
                    &&& final(sim).worker_tokens_checked_out == old(sim).worker_tokens_checked_out
                    &&& final(sim).log == old(sim).log
                }
                ||| exists|w: usize|
                    {
                        &&& (w as int) < old(sim).workers@.len()
                        &&& old(sim).queues@[queue as int].listening_workers@.contains(w)
                        &&& old(sim).workers@[w as int].state == WorkerState::Listening
                        &&& final(sim).workers@[w as int].state == WorkerState::CheckedOut
                        &&& final(sim).queues@[queue as int].deque@ == old(sim).queues@[queue as int].deque@
                        &&& final(sim).worker_tokens_checked_out@ == old(sim).worker_tokens_checked_out@.push(
                            CheckoutRecord {
                                worker_id: old(sim).workers@[w as int].id,
                                queue,
                                timestamp,
                            },
                        )
                        &&& final(sim).log@ == old(sim).log@.push(
                            LogEntry { timestamp, kind: LogKind::Checkout, tag: inner_handler.tag },
                        )
                        &&& r@.len() == 1
                        &&& r@[0].due_time == inner_handler.restore_delay
                        &&& (r@[0].handler matches Handler::RestoreTokens { tokens, tag } && tokens@
                            =~= seq![
                            WorkerToken {
                                worker: w,
                                worker_id: old(sim).workers@[w as int].id,
                                checkout_timestamp: timestamp,
                                originating_queue: queue,
                            },
                        ] && tag == inner_handler.tag)
                    }
            }),
    {
        let dlen = sim.queues[queue].deque.len();
        if dlen == 0 {
            let picked = Queue::pick_worker(sim, queue);
            match picked {
                Some(w) => {
                    let ghost spicked = *sim;
                    let token = checkout(sim, w, queue, timestamp, inner_handler.tag);
                    let mut tokens: Vec<WorkerToken> = Vec::new();
                    tokens.push(token);
                    let mut r: Vec<ProposedEvent> = Vec::new();
                    r.push(
                        ProposedEvent {
                            due_time: inner_handler.restore_delay,
                            handler: Handler::RestoreTokens { tokens, tag: inner_handler.tag },
                        },
                    );
                    proof {
                        assert(spicked.workers@[w as int].id == old(sim).workers@[w as int].id);
                        assert(event_tokens_fresh(r@[0], sim.workers@.len() as int, timestamp));
                        lemma_prefix_push(
                            old(sim).log@,
                            LogEntry { timestamp, kind: LogKind::Checkout, tag: inner_handler.tag },
                        );
                        lemma_prefix_push(
                            old(sim).worker_tokens_checked_out@,
                            CheckoutRecord {
                                worker_id: old(sim).workers@[w as int].id,
                                queue,
                                timestamp,
                            },
                        );
                        lemma_prefix_refl(old(sim).worker_token_duration@);
                        lemma_prefix_refl(old(sim).metric_reports@);
                    }
                    return r;
                },
                None => {
                },
            }
        }
        let ghost spush = *sim;
        sim.queues[queue].deque.push(inner_handler);
        proof {
            assert forall|qi: int| 0 <= qi < sim.queues@.len() implies sim.queue_wf(qi) by {
                assert(spush.queue_wf(qi));
                if qi == queue as int {
                    assert(spush.queues@[qi].listening_workers@.len() == 0);
                }
            }
            assert forall|wi: int| 0 <= wi < sim.workers@.len() implies sim.worker_wf(wi) by {
                assert(spush.worker_wf(wi));
            }
            assert forall|pi: int| 0 <= pi < sim.pools@.len() implies sim.pool_wf(pi) by {
                assert(spush.pool_wf(pi));
            }
            lemma_prefix_refl(old(sim).log@);
            lemma_prefix_refl(old(sim).worker_tokens_checked_out@);
            lemma_prefix_refl(old(sim).worker_token_duration@);
            lemma_prefix_refl(old(sim).metric_reports@);
        }
        Vec::new()
    }

    /// Wrap work destined for a queue as a plain event handler.
    pub fn mk_enqueued_handler(queue: usize, inner_handler: Work) -> (h: Handler)
        ensures
            h == (Handler::Enqueued { queue, work: inner_handler }),
    {
        Handler::Enqueued { queue, work: inner_handler }
    }
}

/// No two tokens hold the same worker.
pub open spec fn tokens_distinct_workers(tokens: Seq<WorkerToken>) -> bool {
    forall|i: int, j: int| 0 <= i < j < tokens.len() ==> tokens[i].worker != tokens[j].worker
}

/// The histogram records that restoring `tokens` at `ts` appends: one per
/// token whose worker is checked out in `workers`, in token order, each
/// measuring the ticks from its checkout to `ts`.
pub open spec fn restored_duration_records(
    workers: Seq<Worker>,
    tokens: Seq<WorkerToken>,
    ts: u64,
) -> Seq<TokenDuration>
    decreases tokens.len(),
{
    if tokens.len() == 0 {
        Seq::empty()
    } else {
        let t = tokens.last();
        restored_duration_records(workers, tokens.drop_last(), ts) + (if workers[t.worker as int].state
            == WorkerState::CheckedOut {
            seq![
                TokenDuration {
                    worker_id: t.worker_id,
                    queue: t.originating_queue,
                    ticks: (ts - t.checkout_timestamp) as u64,
                },
            ]
        } else {
            Seq::empty()
        })
    }
}

impl WorkerToken {
    /// Wrap tokens to restore as a plain event handler.
    pub fn mk_token_restoring_handler(tokens: Vec<WorkerToken>, tag: u64) -> (h: Handler)
        ensures
            h == (Handler::RestoreTokens { tokens, tag }),
    {
        Handler::RestoreTokens { tokens, tag }
    }

    /// Restore checked-out workers: observe each token's checkout-to-now
    /// duration on the `worker_token_duration` histogram and let its worker
    /// listen again, collecting whatever the workers pick up. A token whose
    /// worker is not checked out is ignored; in a well-formed run such a
    /// token cannot arise.
    #[verifier::loop_isolation(false)]
    #[verifier::rlimit(100)]
    #[verifier::spinoff_prover]
    pub fn restore_tokens(
        sim: &mut BaseQueueSimulation,
        tokens: Vec<WorkerToken>,
        timestamp: u64,
    ) -> (r: Vec<ProposedEvent>)
        requires
            old(sim).wf(),
            forall|i: int|
                0 <= i < tokens@.len() ==> (((#[trigger] tokens@[i]).worker as int) < old(sim).workers@.len()
                    && tokens@[i].checkout_timestamp < timestamp),
        ensures
            final(sim).wf(),
            old(sim).evolves_to(*final(sim)),
            final(sim).workers@.len() == old(sim).workers@.len(),
            final(sim).queues@.len() == old(sim).queues@.len(),
            final(sim).status_cells == old(sim).status_cells,
            final(sim).resources == old(sim).resources,
            final(sim).pools == old(sim).pools,
            final(sim).metric_reports == old(sim).metric_reports,
            final(sim).simulation == old(sim).simulation,
            final(sim).stopped == old(sim).stopped,
            BaseQueueSimulation::log_extended_at(old(sim).log@, final(sim).log@, timestamp),
            count_invoked(final(sim).log@) == count_invoked(old(sim).log@),
            forall|i: int|
                0 <= i < r@.len() ==> event_tokens_fresh(
                    r@[i],
                    final(sim).workers@.len() as int,
                    timestamp,
                ),
            forall|i: int|
                0 <= i < r@.len() ==> ((#[trigger] r@[i]).handler matches Handler::RestoreTokens { tokens, tag }),
            old(sim).worker_token_duration@.is_prefix_of(final(sim).worker_token_duration@),
            forall|i: int|
                old(sim).worker_token_duration@.len() <= i < final(sim).worker_token_duration@.len()
                    ==> (#[trigger] final(sim).worker_token_duration@[i]).ticks >= 1,
            forall|wi: int|
                0 <= wi < old(sim).workers@.len() && (forall|j: int|
                    0 <= j < tokens@.len() ==> ((#[trigger] tokens@[j]).worker as int) != wi) ==> (
                #[trigger] final(sim).workers@[wi]) == old(sim).workers@[wi],
            tokens_distinct_workers(tokens@) ==> final(sim).worker_token_duration@ == old(sim).worker_token_duration@
                + restored_duration_records(old(sim).workers@, tokens@, timestamp),
            tokens_distinct_workers(tokens@) ==> forall|i: int|
                0 <= i < tokens@.len() && old(sim).workers@[(#[trigger] tokens@[i]).worker as int].state
                    != WorkerState::CheckedOut ==> final(sim).workers@[tokens@[i].worker as int]
                    == old(sim).workers@[tokens@[i].worker as int],
            tokens_distinct_workers(tokens@) ==> forall|i: int|
                0 <= i < tokens@.len() && old(sim).workers@[(#[trigger] tokens@[i]).worker as int].state
                    == WorkerState::CheckedOut ==> {
                    let w = tokens@[i].worker as int;
                    &&& (old(sim).status_cells@[old(sim).workers@[w].status as int]
                        == Status::Running ==> (final(sim).workers@[w].up == true && (final(sim).workers@[w].state
                        == WorkerState::Listening || final(sim).workers@[w].state
                        == WorkerState::CheckedOut)))
                    &&& (old(sim).status_cells@[old(sim).workers@[w].status as int]
                        != Status::Running ==> (final(sim).workers@[w].state
                        == WorkerState::Terminated && final(sim).workers@[w].up == false))
                },
    {
        proof {
            assert(tokens@.subrange(0, 0) =~= Seq::<WorkerToken>::empty());
            assert(restored_duration_records(old(sim).workers@, tokens@.subrange(0, 0), timestamp)
                =~= Seq::<TokenDuration>::empty());
            assert(old(sim).worker_token_duration@ + Seq::<TokenDuration>::empty() =~= old(sim).worker_token_duration@);
        }
        let mut out: Vec<ProposedEvent> = Vec::new();
        let mut i: usize = 0;
        while i < tokens.len()
            invariant
                i <= tokens@.len(),
                sim.wf(),
                old(sim).evolves_to(*sim),
                sim.workers@.len() == old(sim).workers@.len(),
                sim.queues@.len() == old(sim).queues@.len(),
                sim.status_cells == old(sim).status_cells,
                sim.resources == old(sim).resources,
                sim.pools == old(sim).pools,
                sim.metric_reports == old(sim).metric_reports,
                sim.simulation == old(sim).simulation,
                sim.stopped == old(sim).stopped,
                BaseQueueSimulation::log_extended_at(old(sim).log@, sim.log@, timestamp),
                count_invoked(sim.log@) == count_invoked(old(sim).log@),
                forall|j: int|
                    0 <= j < out@.len() ==> event_tokens_fresh(
                        out@[j],
                        sim.workers@.len() as int,
                        timestamp,
                    ),
                forall|j: int|
                    0 <= j < out@.len() ==> ((#[trigger] out@[j]).handler matches Handler::RestoreTokens { tokens, tag }),
                old(sim).worker_token_duration@.is_prefix_of(sim.worker_token_duration@),
                forall|j: int|
                    old(sim).worker_token_duration@.len() <= j < sim.worker_token_duration@.len()
                        ==> (#[trigger] sim.worker_token_duration@[j]).ticks >= 1,
                forall|wi: int|
                    0 <= wi < old(sim).workers@.len() && (forall|j: int|
                        0 <= j < tokens@.len() ==> ((#[trigger] tokens@[j]).worker as int) != wi)
                        ==> (#[trigger] sim.workers@[wi]) == old(sim).workers@[wi],
                tokens_distinct_workers(tokens@) ==> forall|j: int|
                    i <= j < tokens@.len() ==> sim.workers@[(#[trigger] tokens@[j]).worker as int]
                        == old(sim).workers@[tokens@[j].worker as int],
                tokens_distinct_workers(tokens@) ==> sim.worker_token_duration@ == old(sim).worker_token_duration@
                    + restored_duration_records(
                    old(sim).workers@,
                    tokens@.subrange(0, i as int),
                    timestamp,
                ),
                tokens_distinct_workers(tokens@) ==> forall|j: int|
                    0 <= j < i && old(sim).workers@[(#[trigger] tokens@[j]).worker as int].state
                        != WorkerState::CheckedOut ==> sim.workers@[tokens@[j].worker as int]
                        == old(sim).workers@[tokens@[j].worker as int],
                tokens_distinct_workers(tokens@) ==> forall|j: int|
                    0 <= j < i && old(sim).workers@[(#[trigger] tokens@[j]).worker as int].state
                        == WorkerState::CheckedOut ==> {
                        let w = tokens@[j].worker as int;
                        &&& (old(sim).status_cells@[old(sim).workers@[w].status as int]
                            == Status::Running ==> (sim.workers@[w].up == true && (sim.workers@[w].state
                            == WorkerState::Listening || sim.workers@[w].state
                            == WorkerState::CheckedOut)))
                        &&& (old(sim).status_cells@[old(sim).workers@[w].status as int]
                            != Status::Running ==> (sim.workers@[w].state
                            == WorkerState::Terminated && sim.workers@[w].up == false))
                    },
            decreases tokens@.len() - i,
        {
            let ghost siter = *sim;
            let t_worker = tokens[i].worker;
            let mut is_held = false;
            if matches!(sim.workers[t_worker].state, WorkerState::CheckedOut) {
                is_held = true;
            }
            proof {
                if tokens_distinct_workers(tokens@) {
                    assert(sim.workers@[(tokens@[i as int]).worker as int] == old(sim).workers@[tokens@[i as int].worker as int]);
                    assert(is_held == (old(sim).workers@[tokens@[i as int].worker as int].state
                        == WorkerState::CheckedOut));
                }
            }
            if is_held {
                let t_checkout = tokens[i].checkout_timestamp;
                let dur = timestamp - t_checkout;
                sim.worker_token_duration.push(
                    TokenDuration {
                        worker_id: tokens[i].worker_id,
                        queue: tokens[i].originating_queue,
                        ticks: dur,
                    },
                );
                sim.log.push(
                    LogEntry { timestamp, kind: LogKind::Restored, tag: tokens[i].worker_id },
                );
                proof {
                    lemma_count_invoked_push(
                        siter.log@,
                        LogEntry {
                            timestamp,
                            kind: LogKind::Restored,
                            tag: tokens@[i as int].worker_id,
                        },
                    );
                    lemma_wf_same_components(siter, *sim);
                    lemma_prefix_push(
                        siter.log@,
                        LogEntry {
                            timestamp,
                            kind: LogKind::Restored,
                            tag: tokens@[i as int].worker_id,
                        },
                    );
                    lemma_prefix_trans(old(sim).log@, siter.log@, sim.log@);
                    lemma_prefix_index(old(sim).log@, siter.log@);
                    lemma_prefix_push(
                        siter.worker_token_duration@,
                        TokenDuration {
                            worker_id: tokens@[i as int].worker_id,
                            queue: tokens@[i as int].originating_queue,
                            ticks: dur,
                        },
                    );
                    lemma_prefix_trans(
                        old(sim).worker_token_duration@,
                        siter.worker_token_duration@,
                        sim.worker_token_duration@,
                    );
                    lemma_prefix_index(old(sim).worker_token_duration@, siter.worker_token_duration@);
                }
                let ghost smid = *sim;
                let mut evs = Worker::listen(sim, t_worker, timestamp);
                proof {
                    lemma_evolves_trans(*old(sim), smid, *sim);
                    lemma_log_extended_trans(old(sim).log@, smid.log@, sim.log@, timestamp);
                    lemma_prefix_trans(
                        old(sim).worker_token_duration@,
                        smid.worker_token_duration@,
                        sim.worker_token_duration@,
                    );
                    lemma_prefix_index(old(sim).worker_token_duration@, smid.worker_token_duration@);
                    assert forall|j: int| 0 <= j < out@.len() implies event_tokens_fresh(
                        out@[j],
                        sim.workers@.len() as int,
                        timestamp,
                    ) by {
                        assert(event_tokens_fresh(out@[j], smid.workers@.len() as int, timestamp));
                    }
                }
                let ghost evs_snap = evs@;
                out.append(&mut evs);
                proof {
                    assert forall|j: int| 0 <= j < out@.len() implies event_tokens_fresh(
                        out@[j],
                        sim.workers@.len() as int,
                        timestamp,
                    ) by {
                        if j >= out@.len() - evs_snap.len() {
                            assert(out@[j] == evs_snap[j - (out@.len() - evs_snap.len())]);
                        }
                    }
                }
            }
            i = i + 1;
            proof {
                let iprev = i as int - 1;
                let tprev = tokens@[iprev];
                assert(tokens@.subrange(0, iprev + 1).drop_last() =~= tokens@.subrange(0, iprev));
                assert(tokens@.subrange(0, iprev + 1).last() == tprev);
                assert forall|wi: int|
                    0 <= wi < old(sim).workers@.len() && (forall|j: int|
                        0 <= j < tokens@.len() ==> ((#[trigger] tokens@[j]).worker as int) != wi)
                        implies (#[trigger] sim.workers@[wi]) == old(sim).workers@[wi] by {
                    assert((tokens@[iprev].worker as int) != wi);
                }
                if tokens_distinct_workers(tokens@) {
                    let recs_prev = restored_duration_records(
                        old(sim).workers@,
                        tokens@.subrange(0, iprev),
                        timestamp,
                    );
                    let recs_now = restored_duration_records(
                        old(sim).workers@,
                        tokens@.subrange(0, iprev + 1),
                        timestamp,
                    );
                    if old(sim).workers@[tprev.worker as int].state == WorkerState::CheckedOut {
                        assert(recs_now =~= recs_prev + seq![
                            TokenDuration {
                                worker_id: tprev.worker_id,
                                queue: tprev.originating_queue,
                                ticks: (timestamp - tprev.checkout_timestamp) as u64,
                            },
                        ]);
                        assert(sim.worker_token_duration@ =~= old(sim).worker_token_duration@
                            + recs_now);
                    } else {
                        assert(recs_now =~= recs_prev + Seq::<TokenDuration>::empty());
                        assert(recs_now =~= recs_prev);
                        assert(sim.worker_token_duration@ =~= old(sim).worker_token_duration@
                            + recs_now);
                    }
                    assert forall|j: int|
                        i <= j < tokens@.len() implies sim.workers@[(#[trigger] tokens@[j]).worker as int]
                        == old(sim).workers@[tokens@[j].worker as int] by {
                        assert(tokens@[j].worker != tprev.worker);
                    }
                    assert forall|j: int|
                        0 <= j < i && old(sim).workers@[(#[trigger] tokens@[j]).worker as int].state
                            != WorkerState::CheckedOut implies sim.workers@[tokens@[j].worker as int]
                        == old(sim).workers@[tokens@[j].worker as int] by {
                        if j < iprev {
                            assert(tokens@[j].worker != tprev.worker);
                        }
                    }
                    assert forall|j: int|
                        0 <= j < i && old(sim).workers@[(#[trigger] tokens@[j]).worker as int].state
                            == WorkerState::CheckedOut implies {
                        let w = tokens@[j].worker as int;
                        &&& (old(sim).status_cells@[old(sim).workers@[w].status as int]
                            == Status::Running ==> (sim.workers@[w].up == true && (sim.workers@[w].state
                            == WorkerState::Listening || sim.workers@[w].state
                            == WorkerState::CheckedOut)))
                        &&& (old(sim).status_cells@[old(sim).workers@[w].status as int]
                            != Status::Running ==> (sim.workers@[w].state
                            == WorkerState::Terminated && sim.workers@[w].up == false))
                    } by {
                        if j < iprev {
                            assert(tokens@[j].worker != tprev.worker);
                        }
                    }
                }
            }
        }
        proof {
            assert(tokens@.subrange(0, tokens@.len() as int) =~= tokens@);
        }
        out
    }
}

} // verus!
