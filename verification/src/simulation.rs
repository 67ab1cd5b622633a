use vstd::prelude::*;

use crate::pool_manager::{PoolManager, WorkerTemplate};
use crate::queue::{Queue, WorkerState, Worker};
use crate::rng::rng_from_seed;
use crate::shared_rate_resource::SharedRateResource;
use crate::status::Status;

verus! {

/// Virtual ticks per simulated second.
pub const TICKS_PER_SECOND: u64 = 1000;

/// How often the metric collection handler reschedules itself, in seconds.
pub const METRICS_SAMPLING_PERIOD_SECONDS: u64 = 15;

/// What a log entry witnesses.
#[derive(Clone, Copy, Debug, PartialEq, Eq, Structural)]
pub enum LogKind {
    /// The run loop invoked a scheduled handler.
    Invoked,
    /// A worker token was checked out against a work item.
    Checkout,
    /// A worker token was restored.
    Restored,
    /// A shared-rate tenancy matured.
    TenancyDone,
}

/// An append-only observation of the run: what happened, when, and the tag
/// of the handler or work item concerned.
#[derive(Clone, Copy, Debug, PartialEq, Eq, Structural)]
pub struct LogEntry {
    pub timestamp: u64,
    pub kind: LogKind,
    pub tag: u64,
}

/// One checkout of a worker token, a sample of the
/// `worker_tokens_checked_out` counter family labelled by worker and
/// originating queue.
#[derive(Clone, Copy, Debug, PartialEq, Eq, Structural)]
pub struct CheckoutRecord {
    pub worker_id: u64,
    pub queue: usize,
    pub timestamp: u64,
}

/// One observation of the `worker_token_duration` histogram, in ticks from
/// checkout to restoration.
#[derive(Clone, Copy, Debug, PartialEq, Eq, Structural)]
pub struct TokenDuration {
    pub worker_id: u64,
    pub queue: usize,
    pub ticks: u64,
}

/// A periodic snapshot of the metric counters, taken by the metric
/// collection handler for the application to serialise.
#[derive(Clone, Copy, Debug, PartialEq, Eq, Structural)]
pub struct MetricsReport {
    pub timestamp: u64,
    pub events_dispatched: u64,
    pub worker_tokens_checked_out: u64,
    /// Observations on the `worker_token_duration` histogram so far.
    pub worker_token_durations: u64,
    /// Sum of the `up` gauge family: how many workers are up.
    pub workers_up: u64,
}

/// How many entries of the log witness a handler invocation.
pub open spec fn count_invoked(log: Seq<LogEntry>) -> nat
    decreases log.len(),
{
    if log.len() == 0 {
        0
    } else {
        count_invoked(log.drop_last()) + if log.last().kind == LogKind::Invoked {
            1nat
        } else {
            0nat
        }
    }
}

/// Interface of a simulation: an identity that seeds all randomness, and the
/// `events_dispatched` counter.
pub trait Simulation {
    spec fn id_spec(&self) -> u64;

    spec fn events_dispatched_spec(&self) -> u64;

    fn get_id(&self) -> (r: u64)
        ensures
            r == self.id_spec(),
    ;

    fn get_events_dispatched_metric(&self) -> (r: u64)
        ensures
            r == self.events_dispatched_spec(),
    ;
}

/// Interface of a simulation that dispatches queued work to workers: the
/// worker metric counters.
pub trait QueueSimulation: Simulation {
    spec fn worker_tokens_checked_out_spec(&self) -> nat;

    spec fn worker_token_duration_len_spec(&self) -> nat;

    spec fn up_spec(&self) -> nat;

    /// Total of the `worker_tokens_checked_out` counter family.
    fn get_worker_tokens_checked_out_metric(&self) -> (r: u64)
        ensures
            r as nat == self.worker_tokens_checked_out_spec(),
    ;

    /// Number of observations of the `worker_token_duration` histogram.
    fn get_worker_token_duration_metric(&self) -> (r: u64)
        ensures
            r as nat == self.worker_token_duration_len_spec(),
    ;

    /// Total of the `up` gauge family: how many workers are up.
    fn get_up_metric(&self) -> (r: u64)
        ensures
            r as nat == self.up_spec(),
    ;
}

/// How many of the first `n` workers have their `up` gauge set.
pub open spec fn count_up(workers: Seq<Worker>, n: int) -> nat
    decreases n,
{
    if n <= 0 {
        0
    } else {
        count_up(workers, n - 1) + if workers[n - 1].up {
            1nat
        } else {
            0nat
        }
    }
}

/// The root simulation state: identity, seeded generator, and the
/// `events_dispatched` counter.
pub struct BaseSimulation {
    pub id: u64,
    pub events_dispatched: u64,
    pub rng: rand_xoshiro::Xoshiro256StarStar,
}

impl BaseSimulation {
    pub fn new(id: u64) -> (s: Self)
        ensures
            s.id == id,
            s.events_dispatched == 0,
    {
        BaseSimulation { id, events_dispatched: 0, rng: rng_from_seed(id) }
    }
}

/// The whole simulation world: the root state plus the arenas every
/// component lives in. Components name each other by arena index.
pub struct BaseQueueSimulation {
    pub simulation: BaseSimulation,
    pub queues: Vec<Queue>,
    pub workers: Vec<Worker>,
    /// Shared status cells; workers and pool instances name them by index.
    pub status_cells: Vec<Status>,
    pub resources: Vec<SharedRateResource>,
    pub pools: Vec<PoolManager>,
    /// The `worker_tokens_checked_out` counter family, one record per
    /// checkout.
    pub worker_tokens_checked_out: Vec<CheckoutRecord>,
    /// The `worker_token_duration` histogram, one record per restoration.
    pub worker_token_duration: Vec<TokenDuration>,
    /// Snapshots taken by the metric collection handler.
    pub metric_reports: Vec<MetricsReport>,
    /// Append-only log of what handlers observed.
    pub log: Vec<LogEntry>,
    /// Set by the `Stop` handler; the run loop exits when it sees it.
    pub stopped: bool,
}

impl BaseQueueSimulation {
    /// Well-formedness of one queue: listening workers are valid, unique,
    /// actually in the listening state, subscribed back to this queue, and
    /// the deque is empty while anyone is listening.
    pub open spec fn queue_wf(self, qi: int) -> bool {
        let q = self.queues@[qi];
        &&& forall|i: int|
            0 <= i < q.listening_workers@.len() ==> (#[trigger] q.listening_workers@[i] as int)
                < self.workers@.len()
        &&& forall|i: int, j: int|
            0 <= i < j < q.listening_workers@.len() ==> q.listening_workers@[i]
                != q.listening_workers@[j]
        &&& forall|i: int|
            0 <= i < q.listening_workers@.len() ==> self.workers@[#[trigger] q.listening_workers@[i] as int].state
                == WorkerState::Listening
        &&& forall|i: int|
            0 <= i < q.listening_workers@.len() ==> self.workers@[#[trigger] q.listening_workers@[i] as int].subscribed_queues@.contains(
                qi as usize)
        &&& (q.listening_workers@.len() > 0 ==> q.deque@.len() == 0)
    }

    /// Well-formedness of one worker: subscriptions are valid and unique,
    /// its status cell exists, and while listening it is enrolled with every
    /// subscribed queue.
    pub open spec fn worker_wf(self, wi: int) -> bool {
        let w = self.workers@[wi];
        &&& forall|i: int|
            0 <= i < w.subscribed_queues@.len() ==> (#[trigger] w.subscribed_queues@[i] as int)
                < self.queues@.len()
        &&& forall|i: int, j: int|
            0 <= i < j < w.subscribed_queues@.len() ==> w.subscribed_queues@[i]
                != w.subscribed_queues@[j]
        &&& (w.status as int) < self.status_cells@.len()
        &&& (w.state == WorkerState::Listening ==> forall|i: int|
            0 <= i < w.subscribed_queues@.len() ==> self.queues@[#[trigger] w.subscribed_queues@[i] as int].listening_workers@.contains(
                wi as usize))
    }

    /// Well-formedness of one pool manager: instance status cells and
    /// template queues are valid, and the template's subscriptions are
    /// unique.
    pub open spec fn pool_wf(self, pi: int) -> bool {
        let p = self.pools@[pi];
        &&& forall|i: int|
            0 <= i < p.instances@.len() ==> (#[trigger] p.instances@[i].status_cell as int)
                < self.status_cells@.len()
        &&& forall|i: int|
            0 <= i < p.instance_constructor.subscribed_queues@.len() ==> (
            #[trigger] p.instance_constructor.subscribed_queues@[i] as int) < self.queues@.len()
        &&& forall|i: int, j: int|
            0 <= i < j < p.instance_constructor.subscribed_queues@.len() ==>
                p.instance_constructor.subscribed_queues@[i]
                != p.instance_constructor.subscribed_queues@[j]
    }

    /// The `events_dispatched` counter agrees with the log, saturating at
    /// the machine bound.
    pub open spec fn counter_ok(self) -> bool {
        self.simulation.events_dispatched as nat == if count_invoked(self.log@) < u64::MAX as nat {
            count_invoked(self.log@)
        } else {
            u64::MAX as nat
        }
    }

    /// Well-formedness of the whole world.
    pub open spec fn wf(self) -> bool {
        &&& forall|qi: int| 0 <= qi < self.queues@.len() ==> self.queue_wf(qi)
        &&& forall|wi: int| 0 <= wi < self.workers@.len() ==> self.worker_wf(wi)
        &&& forall|pi: int| 0 <= pi < self.pools@.len() ==> self.pool_wf(pi)
        &&& forall|ri: int| 0 <= ri < self.resources@.len() ==> self.resources@[ri].wf()
        &&& self.counter_ok()
    }

    /// The log grows only by entries stamped `ts`.
    pub open spec fn log_extended_at(pre: Seq<LogEntry>, post: Seq<LogEntry>, ts: u64) -> bool {
        &&& pre.is_prefix_of(post)
        &&& forall|i: int| pre.len() <= i < post.len() ==> (#[trigger] post[i]).timestamp == ts
    }

    /// The component structure carries over from `self` to `post`: queues
    /// keep their names, workers keep their identity, subscriptions and
    /// status cells, arenas only grow, and the log and metric records are
    /// append-only.
    pub open spec fn evolves_to(self, post: Self) -> bool {
        &&& post.queues@.len() == self.queues@.len()
        &&& forall|qi: int|
            0 <= qi < self.queues@.len() ==> (#[trigger] post.queues@[qi]).name
                == self.queues@[qi].name
        &&& post.workers@.len() >= self.workers@.len()
        &&& forall|wi: int|
            0 <= wi < self.workers@.len() ==> {
                &&& (#[trigger] post.workers@[wi]).id == self.workers@[wi].id
                &&& post.workers@[wi].subscribed_queues == self.workers@[wi].subscribed_queues
                &&& post.workers@[wi].status == self.workers@[wi].status
            }
        &&& post.status_cells@.len() >= self.status_cells@.len()
        &&& post.resources@.len() == self.resources@.len()
        &&& post.pools@.len() == self.pools@.len()
        &&& post.simulation.id == self.simulation.id
        &&& self.log@.is_prefix_of(post.log@)
        &&& self.worker_tokens_checked_out@.is_prefix_of(post.worker_tokens_checked_out@)
        &&& self.worker_token_duration@.is_prefix_of(post.worker_token_duration@)
        &&& self.metric_reports@.is_prefix_of(post.metric_reports@)
    }

    pub fn new(id: u64) -> (s: Self)
        ensures
            s.wf(),
            s.simulation.id == id,
            s.simulation.events_dispatched == 0,
            s.queues@.len() == 0,
            s.workers@.len() == 0,
            s.status_cells@.len() == 0,
            s.resources@.len() == 0,
            s.pools@.len() == 0,
            s.worker_tokens_checked_out@.len() == 0,
            s.worker_token_duration@.len() == 0,
            s.metric_reports@.len() == 0,
            s.log@.len() == 0,
            !s.stopped,
    {
        BaseQueueSimulation {
            simulation: BaseSimulation::new(id),
            queues: Vec::new(),
            workers: Vec::new(),
            status_cells: Vec::new(),
            resources: Vec::new(),
            pools: Vec::new(),
            worker_tokens_checked_out: Vec::new(),
            worker_token_duration: Vec::new(),
            metric_reports: Vec::new(),
            log: Vec::new(),
            stopped: false,
        }
    }
}

impl BaseQueueSimulation {
    /// Create an empty queue, forking its generator from the simulation's,
    /// and return its index in the queue arena.
    pub fn add_queue(&mut self, name: String) -> (qi: usize)
        requires
            old(self).wf(),
        ensures
            final(self).wf(),
            qi == old(self).queues@.len(),
            final(self).queues@ == old(self).queues@.push(final(self).queues@[qi as int]),
            final(self).queues@[qi as int].name == name,
            final(self).queues@[qi as int].listening_workers@.len() == 0,
            final(self).queues@[qi as int].deque@.len() == 0,
            final(self).workers == old(self).workers,
            final(self).status_cells == old(self).status_cells,
            final(self).resources == old(self).resources,
            final(self).pools == old(self).pools,
            final(self).log == old(self).log,
            final(self).worker_tokens_checked_out == old(self).worker_tokens_checked_out,
            final(self).worker_token_duration == old(self).worker_token_duration,
            final(self).metric_reports == old(self).metric_reports,
            final(self).simulation.id == old(self).simulation.id,
            final(self).simulation.events_dispatched == old(self).simulation.events_dispatched,
            final(self).stopped == old(self).stopped,
    {
        let rng = crate::rng::rng_fork(&self.simulation.rng);
        let qi = self.queues.len();
        self.queues.push(
            Queue { name, listening_workers: Vec::new(), deque: Vec::new(), rng },
        );
        assert forall|i: int| 0 <= i < self.queues@.len() implies self.queue_wf(i) by {
            if i < qi {
                assert(old(self).queue_wf(i));
                assert(self.queues@[i] == old(self).queues@[i]);
            }
        }
        assert forall|i: int| 0 <= i < self.workers@.len() implies self.worker_wf(i) by {
            assert(old(self).worker_wf(i));
        }
        assert forall|i: int| 0 <= i < self.pools@.len() implies self.pool_wf(i) by {
            assert(old(self).pool_wf(i));
        }
        qi
    }

    /// Create a status cell holding `value` and return its index.
    pub fn new_status_cell(&mut self, value: Status) -> (ci: usize)
        requires
            old(self).wf(),
        ensures
            final(self).wf(),
            ci == old(self).status_cells@.len(),
            final(self).status_cells@ == old(self).status_cells@.push(value),
            final(self).queues == old(self).queues,
            final(self).workers == old(self).workers,
            final(self).resources == old(self).resources,
            final(self).pools == old(self).pools,
            final(self).log == old(self).log,
            final(self).worker_tokens_checked_out == old(self).worker_tokens_checked_out,
            final(self).worker_token_duration == old(self).worker_token_duration,
            final(self).metric_reports == old(self).metric_reports,
            final(self).simulation.id == old(self).simulation.id,
            final(self).simulation.events_dispatched == old(self).simulation.events_dispatched,
            final(self).stopped == old(self).stopped,
    {
        let ci = self.status_cells.len();
        self.status_cells.push(value);
        assert forall|i: int| 0 <= i < self.queues@.len() implies self.queue_wf(i) by {
            assert(old(self).queue_wf(i));
        }
        assert forall|i: int| 0 <= i < self.workers@.len() implies self.worker_wf(i) by {
            assert(old(self).worker_wf(i));
        }
        assert forall|i: int| 0 <= i < self.pools@.len() implies self.pool_wf(i) by {
            assert(old(self).pool_wf(i));
        }
        ci
    }

    /// Create a shared-rate resource with `partitions` parallel partitions,
    /// forking its generator from the simulation's, and return its index.
    pub fn add_resource(&mut self, id: u64, partitions: u8) -> (ri: usize)
        requires
            old(self).wf(),
            partitions >= 1,
        ensures
            final(self).wf(),
            ri == old(self).resources@.len(),
            final(self).resources@.len() == old(self).resources@.len() + 1,
            forall|i: int|
                0 <= i < old(self).resources@.len() ==> final(self).resources@[i] == old(self).resources@[i],
            final(self).resources@[ri as int].tenancies@.len() == 0,
            final(self).resources@[ri as int].partitions == partitions,
            final(self).resources@[ri as int].id == id,
            final(self).resources@[ri as int].resource_timer == 0,
            final(self).resources@[ri as int].resource_timer_last_updated_real_time == 0,
            final(self).queues == old(self).queues,
            final(self).workers == old(self).workers,
            final(self).status_cells == old(self).status_cells,
            final(self).pools == old(self).pools,
            final(self).log == old(self).log,
            final(self).worker_tokens_checked_out == old(self).worker_tokens_checked_out,
            final(self).worker_token_duration == old(self).worker_token_duration,
            final(self).metric_reports == old(self).metric_reports,
            final(self).simulation.id == old(self).simulation.id,
            final(self).simulation.events_dispatched == old(self).simulation.events_dispatched,
            final(self).stopped == old(self).stopped,
    {
        let rng = crate::rng::rng_fork(&self.simulation.rng);
        let ri = self.resources.len();
        self.resources.push(SharedRateResource::new(id, partitions, rng));
        proof {
            assert forall|i: int| 0 <= i < self.queues@.len() implies self.queue_wf(i) by {
                assert(old(self).queue_wf(i));
            }
            assert forall|i: int| 0 <= i < self.workers@.len() implies self.worker_wf(i) by {
                assert(old(self).worker_wf(i));
            }
            assert forall|i: int| 0 <= i < self.pools@.len() implies self.pool_wf(i) by {
                assert(old(self).pool_wf(i));
            }
            assert forall|i: int| 0 <= i < self.resources@.len() implies self.resources@[i].wf() by {
                if i < ri {
                    assert(old(self).resources@[i].wf());
                }
            }
        }
        ri
    }

    /// Create a pool manager whose instances are workers subscribed to
    /// `subscribed_queues`, and return its index. The subscription list must
    /// name existing queues, each at most once.
    pub fn add_pool(&mut self, name: String, subscribed_queues: Vec<usize>) -> (pi: usize)
        requires
            old(self).wf(),
            forall|i: int|
                0 <= i < subscribed_queues@.len() ==> (#[trigger] subscribed_queues@[i] as int)
                    < old(self).queues@.len(),
            forall|i: int, j: int|
                0 <= i < j < subscribed_queues@.len() ==> subscribed_queues@[i]
                    != subscribed_queues@[j],
        ensures
            final(self).wf(),
            pi == old(self).pools@.len(),
            final(self).pools@.len() == old(self).pools@.len() + 1,
            forall|i: int| 0 <= i < old(self).pools@.len() ==> final(self).pools@[i] == old(self).pools@[i],
            final(self).pools@[pi as int].instances@.len() == 0,
            final(self).pools@[pi as int].name == name,
            final(self).pools@[pi as int].instance_constructor.subscribed_queues
                == subscribed_queues,
            final(self).queues == old(self).queues,
            final(self).workers == old(self).workers,
            final(self).status_cells == old(self).status_cells,
            final(self).resources == old(self).resources,
            final(self).log == old(self).log,
            final(self).worker_tokens_checked_out == old(self).worker_tokens_checked_out,
            final(self).worker_token_duration == old(self).worker_token_duration,
            final(self).metric_reports == old(self).metric_reports,
            final(self).simulation == old(self).simulation,
            final(self).stopped == old(self).stopped,
    {
        let pi = self.pools.len();
        self.pools.push(
            PoolManager {
                name,
                instances: Vec::new(),
                instance_constructor: WorkerTemplate { subscribed_queues },
            },
        );
        proof {
            assert forall|i: int| 0 <= i < self.queues@.len() implies self.queue_wf(i) by {
                assert(old(self).queue_wf(i));
            }
            assert forall|i: int| 0 <= i < self.workers@.len() implies self.worker_wf(i) by {
                assert(old(self).worker_wf(i));
            }
            assert forall|i: int| 0 <= i < self.pools@.len() implies self.pool_wf(i) by {
                if i < pi {
                    assert(old(self).pool_wf(i));
                }
            }
        }
        pi
    }

    /// Read a status cell.
    pub fn get_status(&self, cell: usize) -> (s: Status)
        requires
            (cell as int) < self.status_cells@.len(),
        ensures
            s == self.status_cells@[cell as int],
    {
        self.status_cells[cell]
    }

    /// Write a status cell: how an outside observer requests shutdown.
    pub fn set_status(&mut self, cell: usize, value: Status)
        requires
            old(self).wf(),
            (cell as int) < old(self).status_cells@.len(),
        ensures
            final(self).wf(),
            final(self).status_cells@ == old(self).status_cells@.update(cell as int, value),
            final(self).queues == old(self).queues,
            final(self).workers == old(self).workers,
            final(self).resources == old(self).resources,
            final(self).pools == old(self).pools,
            final(self).log == old(self).log,
            final(self).worker_tokens_checked_out == old(self).worker_tokens_checked_out,
            final(self).worker_token_duration == old(self).worker_token_duration,
            final(self).metric_reports == old(self).metric_reports,
            final(self).simulation.id == old(self).simulation.id,
            final(self).simulation.events_dispatched == old(self).simulation.events_dispatched,
            final(self).stopped == old(self).stopped,
    {
        self.status_cells[cell] = value;
        assert forall|i: int| 0 <= i < self.queues@.len() implies self.queue_wf(i) by {
            assert(old(self).queue_wf(i));
        }
        assert forall|i: int| 0 <= i < self.workers@.len() implies self.worker_wf(i) by {
            assert(old(self).worker_wf(i));
        }
        assert forall|i: int| 0 <= i < self.pools@.len() implies self.pool_wf(i) by {
            assert(old(self).pool_wf(i));
        }
    }
}

/// Every sequence is a prefix of itself.
pub proof fn lemma_prefix_refl<T>(s: Seq<T>)
    ensures
        s.is_prefix_of(s),
{
    assert(s.subrange(0, s.len() as int) =~= s);
}

/// A sequence is a prefix of itself extended by one element.
pub proof fn lemma_prefix_push<T>(s: Seq<T>, e: T)
    ensures
        s.is_prefix_of(s.push(e)),
{
    assert(s.push(e).subrange(0, s.len() as int) =~= s);
}

/// A prefix of a prefix is a prefix.
pub proof fn lemma_prefix_trans<T>(a: Seq<T>, b: Seq<T>, c: Seq<T>)
    requires
        a.is_prefix_of(b),
        b.is_prefix_of(c),
    ensures
        a.is_prefix_of(c),
{
    assert(a =~= c.subrange(0, a.len() as int)) by {
        assert forall|i: int| 0 <= i < a.len() implies a[i] == c.subrange(0, a.len() as int)[i] by {
            assert(a[i] == b.subrange(0, a.len() as int)[i]);
            assert(b[i] == c.subrange(0, b.len() as int)[i]);
        }
    }
}

/// A prefix agrees with the longer sequence pointwise.
pub proof fn lemma_prefix_index<T>(a: Seq<T>, b: Seq<T>)
    requires
        a.is_prefix_of(b),
    ensures
        forall|i: int| 0 <= i < a.len() ==> a[i] == b[i],
{
    assert forall|i: int| 0 <= i < a.len() implies a[i] == b[i] by {
        assert(a[i] == b.subrange(0, a.len() as int)[i]);
    }
}

/// Appending a log entry raises the invocation count exactly when the entry
/// witnesses an invocation.
pub proof fn lemma_count_invoked_push(log: Seq<LogEntry>, e: LogEntry)
    ensures
        count_invoked(log.push(e)) == count_invoked(log) + if e.kind == LogKind::Invoked {
            1nat
        } else {
            0nat
        },
{
    assert(log.push(e).drop_last() =~= log);
    assert(log.push(e).last() == e);
    assert(log.push(e).len() == log.len() + 1);
}

/// The log grows monotonically: extension at one timestamp composes.
pub proof fn lemma_log_extended_trans(a: Seq<LogEntry>, b: Seq<LogEntry>, c: Seq<LogEntry>, ts: u64)
    requires
        BaseQueueSimulation::log_extended_at(a, b, ts),
        BaseQueueSimulation::log_extended_at(b, c, ts),
    ensures
        BaseQueueSimulation::log_extended_at(a, c, ts),
{
    lemma_prefix_trans(a, b, c);
    lemma_prefix_index(b, c);
    assert forall|i: int| a.len() <= i < c.len() implies (#[trigger] c[i]).timestamp == ts by {
        if i < b.len() {
            assert(c[i] == b[i]);
        }
    }
}

/// Evolution of the component structure composes.
pub proof fn lemma_evolves_trans(
    a: BaseQueueSimulation,
    b: BaseQueueSimulation,
    c: BaseQueueSimulation,
)
    requires
        a.evolves_to(b),
        b.evolves_to(c),
    ensures
        a.evolves_to(c),
{
    lemma_prefix_trans(a.log@, b.log@, c.log@);
    lemma_prefix_trans(
        a.worker_tokens_checked_out@,
        b.worker_tokens_checked_out@,
        c.worker_tokens_checked_out@,
    );
    lemma_prefix_trans(a.worker_token_duration@, b.worker_token_duration@, c.worker_token_duration@);
    lemma_prefix_trans(a.metric_reports@, b.metric_reports@, c.metric_reports@);
}

/// The `events_dispatched` counter equals the number of handler invocations
/// the log witnesses, as long as that number still fits the counter.
pub proof fn lemma_events_dispatched_counts(sim: BaseQueueSimulation)
    requires
        sim.wf(),
        count_invoked(sim.log@) < u64::MAX as nat,
    ensures
        sim.simulation.events_dispatched as nat == count_invoked(sim.log@),
{
}

/// Well-formedness only reads the component arenas and the dispatch counter,
/// so a state that keeps them (and the counter-log agreement) keeps it.
pub proof fn lemma_wf_same_components(pre: BaseQueueSimulation, post: BaseQueueSimulation)
    requires
        pre.wf(),
        post.queues == pre.queues,
        post.workers == pre.workers,
        post.status_cells == pre.status_cells,
        post.resources == pre.resources,
        post.pools == pre.pools,
        post.counter_ok(),
    ensures
        post.wf(),
{
    assert forall|qi: int| 0 <= qi < post.queues@.len() implies post.queue_wf(qi) by {
        assert(pre.queue_wf(qi));
    }
    assert forall|wi: int| 0 <= wi < post.workers@.len() implies post.worker_wf(wi) by {
        assert(pre.worker_wf(wi));
    }
    assert forall|pi: int| 0 <= pi < post.pools@.len() implies post.pool_wf(pi) by {
        assert(pre.pool_wf(pi));
    }
}

/// A change confined to one worker's gauge or generator (its state,
/// identity, subscriptions and status cell staying put) keeps the world
/// well-formed.
pub proof fn lemma_wf_worker_soft_update(pre: BaseQueueSimulation, post: BaseQueueSimulation, w: int)
    requires
        pre.wf(),
        0 <= w < pre.workers@.len(),
        post.workers@ == pre.workers@.update(w, post.workers@[w]),
        post.workers@[w].state == pre.workers@[w].state,
        post.workers@[w].subscribed_queues == pre.workers@[w].subscribed_queues,
        post.workers@[w].status == pre.workers@[w].status,
        post.queues == pre.queues,
        post.status_cells == pre.status_cells,
        post.resources == pre.resources,
        post.pools == pre.pools,
        post.log == pre.log,
        post.simulation.events_dispatched == pre.simulation.events_dispatched,
    ensures
        post.wf(),
{
    assert forall|qi: int| 0 <= qi < post.queues@.len() implies post.queue_wf(qi) by {
        assert(pre.queue_wf(qi));
    }
    assert forall|wi: int| 0 <= wi < post.workers@.len() implies post.worker_wf(wi) by {
        assert(pre.worker_wf(wi));
    }
    assert forall|pi: int| 0 <= pi < post.pools@.len() implies post.pool_wf(pi) by {
        assert(pre.pool_wf(pi));
    }
}

impl Simulation for BaseSimulation {
    open spec fn id_spec(&self) -> u64 {
        self.id
    }

    open spec fn events_dispatched_spec(&self) -> u64 {
        self.events_dispatched
    }

    fn get_id(&self) -> (r: u64) {
        self.id
    }

    fn get_events_dispatched_metric(&self) -> (r: u64) {
        self.events_dispatched
    }
}

impl Simulation for BaseQueueSimulation {
    open spec fn id_spec(&self) -> u64 {
        self.simulation.id
    }

    open spec fn events_dispatched_spec(&self) -> u64 {
        self.simulation.events_dispatched
    }

    fn get_id(&self) -> (r: u64) {
        self.simulation.id
    }

    fn get_events_dispatched_metric(&self) -> (r: u64) {
        self.simulation.events_dispatched
    }
}

impl QueueSimulation for BaseQueueSimulation {
    open spec fn worker_tokens_checked_out_spec(&self) -> nat {
        self.worker_tokens_checked_out@.len()
    }

    open spec fn worker_token_duration_len_spec(&self) -> nat {
        self.worker_token_duration@.len()
    }

    open spec fn up_spec(&self) -> nat {
        count_up(self.workers@, self.workers@.len() as int)
    }

    fn get_worker_tokens_checked_out_metric(&self) -> (r: u64) {
        self.worker_tokens_checked_out.len() as u64
    }

    fn get_worker_token_duration_metric(&self) -> (r: u64) {
        self.worker_token_duration.len() as u64
    }

    fn get_up_metric(&self) -> (r: u64) {
        let total = self.workers.len();
        proof {
            assert(total as int == self.workers@.len());
            assert(self.workers@.len() <= u64::MAX);
        }
        let mut n: u64 = 0;
        let mut i: usize = 0;
        while i < self.workers.len()
            invariant
                i <= self.workers@.len(),
                self.workers@.len() <= u64::MAX,
                n as nat == count_up(self.workers@, i as int),
                n <= i,
            decreases self.workers@.len() - i,
        {
            if self.workers[i].up {
                n = n + 1;
            }
            i = i + 1;
        }
        n
    }
}

} // verus!
