use vstd::prelude::*;

use crate::args_rets::{
    event_tokens_fresh, DelayDistribution, DelaySampler, Handler, ProposedEvent,
};
use crate::rng::shuffle;
use crate::simulation::{
    lemma_count_invoked_push, lemma_prefix_push, lemma_prefix_refl, lemma_wf_same_components,
    BaseQueueSimulation, LogEntry, LogKind, Simulation, TICKS_PER_SECOND, count_invoked,
};

verus! {

/// What a matured tenancy does: append an observation with this tag to the
/// simulation log. Completions are deliberately plain data; behaviour beyond
/// the observation is composed from separately scheduled events.
#[derive(Clone, Copy, Debug, PartialEq, Eq, Structural)]
pub struct TenancyWork {
    pub tag: u64,
}

/// A pending obligation on a shared-rate resource: it matures when the
/// resource timer reaches `due_timer_time`.
pub struct SharedRateTenancy {
    pub due_timer_time: u64,
    pub handler: TenancyWork,
}

/// Marker for simulations that host shared-rate resources.
pub trait SRRSimulation: Simulation {

}

impl SRRSimulation for BaseQueueSimulation {

}

/// Virtual-time accounting for `partitions` parallel servers shared by the
/// current tenancies. While `K` tenancies are outstanding, each earns timer
/// ticks at rate `min(1, partitions / K)` per real tick.
pub struct SharedRateResource {
    pub id: u64,
    /// Number of parallel partitions, between 1 and 255.
    pub partitions: u8,
    /// Virtual time earned by each tenant so far.
    pub resource_timer: u64,
    pub resource_timer_last_updated_real_time: u64,
    /// Cumulative `min(partitions, K)` weighted real time, for metrics.
    pub utilization_counter: u64,
    /// Cumulative `K` weighted real time, for metrics.
    pub load_counter: u64,
    /// Recently proposed wakeup times, most recent first, used to suppress
    /// duplicate wakeup events; holds at most `MAX_WAKEUP_EVENT_MEMO_LEN`.
    pub wakeup_event_memo: Vec<u64>,
    /// Outstanding tenancies, sorted by `due_timer_time`, earliest first.
    pub tenancies: Vec<SharedRateTenancy>,
    pub rng: rand_xoshiro::Xoshiro256StarStar,
}

pub const MAX_WAKEUP_EVENT_MEMO_LEN: usize = 8;

/// A quiescent resource timer is not reset below this value, so that metric
/// scrapes have a chance to observe the cumulative counters first.
pub const MIN_RESOURCE_TIMER_RESET_VAL: u64 = 120 * TICKS_PER_SECOND;

/// Timer ticks earned over `delta` real ticks by each of `k` tenants sharing
/// `n` partitions: rate `min(1, n / k)`, rounded toward zero.
pub open spec fn rate_advance(delta: int, n: int, k: int) -> int {
    if k <= n {
        delta
    } else {
        (delta * n) / k
    }
}

/// Saturate an unbounded value at the 64-bit bound.
pub open spec fn sat64(x: int) -> int {
    if x > u64::MAX as int {
        u64::MAX as int
    } else {
        x
    }
}

impl SharedRateResource {
    /// Tenancies are kept sorted by due timer time, earliest first.
    pub open spec fn tenancies_sorted(self) -> bool {
        forall|i: int, j: int|
            0 <= i <= j < self.tenancies@.len() ==> self.tenancies@[i].due_timer_time
                <= self.tenancies@[j].due_timer_time
    }

    /// The resource timer stays strictly below the earliest due timer time.
    pub open spec fn timer_below_heap(self) -> bool {
        self.tenancies@.len() > 0 ==> self.resource_timer < self.tenancies@[0].due_timer_time
    }

    pub open spec fn wf(self) -> bool {
        &&& self.partitions >= 1
        &&& self.tenancies_sorted()
        &&& self.timer_below_heap()
        &&& self.resource_timer < u64::MAX
        &&& self.wakeup_event_memo@.len() <= MAX_WAKEUP_EVENT_MEMO_LEN
    }

    /// The resource timer after an update at real time `now`.
    pub open spec fn timer_after_update(self, now: u64) -> int {
        if self.tenancies@.len() == 0 {
            if self.resource_timer >= MIN_RESOURCE_TIMER_RESET_VAL {
                0
            } else {
                self.resource_timer as int
            }
        } else if self.resource_timer_last_updated_real_time != now {
            let delta = now - self.resource_timer_last_updated_real_time;
            let cap = self.tenancies@[0].due_timer_time - self.resource_timer - 1;
            let raw = rate_advance(delta, self.partitions as int, self.tenancies@.len() as int);
            self.resource_timer + (if raw <= cap {
                raw
            } else {
                cap
            })
        } else {
            self.resource_timer as int
        }
    }

    /// The utilization counter after an update at real time `now`.
    pub open spec fn util_after_update(self, now: u64) -> int {
        if self.tenancies@.len() == 0 {
            if self.resource_timer >= MIN_RESOURCE_TIMER_RESET_VAL {
                0
            } else {
                self.utilization_counter as int
            }
        } else if self.resource_timer_last_updated_real_time != now {
            let delta = now - self.resource_timer_last_updated_real_time;
            let k = self.tenancies@.len() as int;
            let n = self.partitions as int;
            sat64(
                self.utilization_counter + (if k <= n {
                    k
                } else {
                    n
                }) * delta,
            )
        } else {
            self.utilization_counter as int
        }
    }

    /// The load counter after an update at real time `now`.
    pub open spec fn load_after_update(self, now: u64) -> int {
        if self.tenancies@.len() == 0 {
            if self.resource_timer >= MIN_RESOURCE_TIMER_RESET_VAL {
                0
            } else {
                self.load_counter as int
            }
        } else if self.resource_timer_last_updated_real_time != now {
            let delta = now - self.resource_timer_last_updated_real_time;
            let k = self.tenancies@.len() as int;
            sat64(self.load_counter + k * delta)
        } else {
            self.load_counter as int
        }
    }

    /// The real time at which the earliest tenancy matures under the current
    /// rate: meaningful only while tenancies are outstanding.
    pub open spec fn next_wakeup_spec(self) -> int {
        let dd = self.tenancies@[0].due_timer_time - self.resource_timer;
        let k = self.tenancies@.len() as int;
        let n = self.partitions as int;
        self.resource_timer_last_updated_real_time + (if k <= n {
            dd
        } else {
            (dd * k) / n
        })
    }

    /// The predicted wakeup time as a 64-bit tick, saturated.
    pub open spec fn next_wakeup_sat(self) -> u64 {
        sat64(self.next_wakeup_spec()) as u64
    }

    /// A fresh resource with no tenancies and all clocks at zero.
    pub fn new(id: u64, partitions: u8, rng: rand_xoshiro::Xoshiro256StarStar) -> (r: Self)
        requires
            partitions >= 1,
        ensures
            r.wf(),
            r.id == id,
            r.partitions == partitions,
            r.resource_timer == 0,
            r.resource_timer_last_updated_real_time == 0,
            r.utilization_counter == 0,
            r.load_counter == 0,
            r.wakeup_event_memo@.len() == 0,
            r.tenancies@.len() == 0,
    {
        SharedRateResource {
            id,
            partitions,
            resource_timer: 0,
            resource_timer_last_updated_real_time: 0,
            utilization_counter: 0,
            load_counter: 0,
            wakeup_event_memo: Vec::new(),
            tenancies: Vec::new(),
            rng,
        }
    }

    /// Advance the resource timer to real time `now`. With no tenancies
    /// outstanding, a sufficiently old timer is reset instead. The advance is
    /// capped just below the earliest due timer time; the cap only binds when
    /// the update happens at or past the predicted wakeup, at which point the
    /// due tenancies are already being popped by the wakeup handler.
    pub fn update_resource_timer(&mut self, current_timestamp: u64)
        requires
            old(self).wf(),
            old(self).resource_timer_last_updated_real_time <= current_timestamp,
        ensures
            final(self).wf(),
            final(self).resource_timer_last_updated_real_time == current_timestamp,
            final(self).tenancies == old(self).tenancies,
            final(self).wakeup_event_memo == old(self).wakeup_event_memo,
            final(self).partitions == old(self).partitions,
            final(self).id == old(self).id,
            final(self).rng == old(self).rng,
            final(self).resource_timer == old(self).timer_after_update(current_timestamp),
            final(self).utilization_counter == old(self).util_after_update(current_timestamp),
            final(self).load_counter == old(self).load_after_update(current_timestamp),
            final(self).tenancies@.len() > 0 ==> final(self).resource_timer < final(self).tenancies@[0].due_timer_time,
    {
        if self.tenancies.len() == 0 {
            // don't reset before the counters have had a good chance to be
            // observed by metrics
            if self.resource_timer >= MIN_RESOURCE_TIMER_RESET_VAL {
                self.resource_timer = 0;
                self.utilization_counter = 0;
                self.load_counter = 0;
            }
        } else if self.resource_timer_last_updated_real_time != current_timestamp {
            let delta = current_timestamp - self.resource_timer_last_updated_real_time;
            let n = self.partitions;
            let k = self.tenancies.len();
            let due0 = self.tenancies[0].due_timer_time;
            let cap = due0 - self.resource_timer - 1;
            let raw128: u128 = if k <= n as usize {
                delta as u128
            } else {
                proof {
                    assert((delta as u128) * (n as u128) <= (u64::MAX as u128) * (255 as u128))
                        by (nonlinear_arith)
                        requires
                            delta <= u64::MAX,
                            n <= 255,
                    ;
                }
                ((delta as u128) * (n as u128)) / (k as u128)
            };
            let inc: u64 = if raw128 <= cap as u128 {
                raw128 as u64
            } else {
                cap
            };
            self.resource_timer = self.resource_timer + inc;
            let minkn: u64 = if k as u64 <= n as u64 {
                k as u64
            } else {
                n as u64
            };
            proof {
                assert((minkn as u128) * (delta as u128) <= (u64::MAX as u128) * (u64::MAX
                    as u128)) by (nonlinear_arith)
                    requires
                        minkn <= u64::MAX,
                        delta <= u64::MAX,
                ;
                assert((k as u128) * (delta as u128) <= (u64::MAX as u128) * (u64::MAX as u128))
                    by (nonlinear_arith)
                    requires
                        k <= u64::MAX,
                        delta <= u64::MAX,
                ;
            }
            let upd: u128 = (self.utilization_counter as u128) + (minkn as u128) * (delta as u128);
            self.utilization_counter = if upd > u64::MAX as u128 {
                u64::MAX
            } else {
                upd as u64
            };
            let lupd: u128 = (self.load_counter as u128) + (k as u128) * (delta as u128);
            self.load_counter = if lupd > u64::MAX as u128 {
                u64::MAX
            } else {
                lupd as u64
            };
        }
        self.resource_timer_last_updated_real_time = current_timestamp;
    }

    /// The real tick at which the earliest outstanding tenancy matures, or
    /// nothing while the resource is idle.
    pub fn get_next_wakeup_time(&self) -> (r: Option<u64>)
        requires
            self.wf(),
        ensures
            r is Some <==> self.tenancies@.len() > 0,
            r is Some ==> r->Some_0 == self.next_wakeup_sat(),
    {
        if self.tenancies.len() == 0 {
            return None;
        }
        let due0 = self.tenancies[0].due_timer_time;
        let dd = due0 - self.resource_timer;
        let k = self.tenancies.len();
        let n = self.partitions;
        let wake128: u128 = if k <= n as usize {
            (self.resource_timer_last_updated_real_time as u128) + (dd as u128)
        } else {
            proof {
                assert((dd as u128) * (k as u128) <= (u64::MAX as u128) * (u64::MAX as u128))
                    by (nonlinear_arith)
                    requires
                        dd <= u64::MAX,
                        k <= u64::MAX,
                ;
            }
            (self.resource_timer_last_updated_real_time as u128) + ((dd as u128) * (k as u128)) / (
            n as u128)
        };
        if wake128 > u64::MAX as u128 {
            Some(u64::MAX)
        } else {
            Some(wake128 as u64)
        }
    }

    /// Add a tenancy: advance the timer to `current_timestamp`, sample the
    /// required timer time (clamped to at least one tick), and insert the
    /// tenancy in due-time order. Returns the tenancy's due timer time.
    pub fn add_tenancy<S: DelaySampler>(
        &mut self,
        current_timestamp: u64,
        required_resource_time: DelayDistribution,
        inner_handler: TenancyWork,
        sampler: &mut S,
    ) -> (due: u64)
        requires
            old(self).wf(),
            old(self).resource_timer_last_updated_real_time <= current_timestamp,
        ensures
            final(self).wf(),
            final(self).resource_timer_last_updated_real_time == current_timestamp,
            final(self).resource_timer == old(self).timer_after_update(current_timestamp),
            final(self).wakeup_event_memo == old(self).wakeup_event_memo,
            final(self).partitions == old(self).partitions,
            final(self).id == old(self).id,
            final(self).tenancies@.len() == old(self).tenancies@.len() + 1,
            due > final(self).resource_timer,
            required_resource_time.cv_hundredths == 0 ==> due as int == sat64(old(self).timer_after_update(current_timestamp) + required_resource_time.deterministic_delay()),
            exists|pos: int|
                0 <= pos <= old(self).tenancies@.len() && final(self).tenancies@ == old(self).tenancies@.insert(
                    pos,
                    SharedRateTenancy { due_timer_time: due, handler: inner_handler },
                ),
    {
        self.update_resource_timer(current_timestamp);
        let actual = required_resource_time.sample(sampler, &mut self.rng);
        let due: u64 = if actual > u64::MAX - self.resource_timer {
            u64::MAX
        } else {
            self.resource_timer + actual
        };
        let ghost pre = self.tenancies@;
        let mut pos: usize = 0;
        while pos < self.tenancies.len() && self.tenancies[pos].due_timer_time <= due
            invariant
                pos <= self.tenancies@.len(),
                self.tenancies@ == pre,
                forall|i: int| 0 <= i < pos ==> pre[i].due_timer_time <= due,
            decreases self.tenancies@.len() - pos,
        {
            pos = pos + 1;
        }
        let t = SharedRateTenancy { due_timer_time: due, handler: inner_handler };
        self.tenancies.insert(pos, t);
        proof {
            pre.insert_ensures(pos as int, t);
            assert forall|i: int, j: int|
                0 <= i <= j < self.tenancies@.len() implies self.tenancies@[i].due_timer_time
                <= self.tenancies@[j].due_timer_time by {
                if pos < pre.len() {
                    assert(pre[pos as int].due_timer_time > due);
                }
            }
        }
        due
    }

    /// The wakeup event this resource proposes for its earliest tenancy: a
    /// deterministic delay that lands on the predicted wakeup tick (clamped
    /// forward to the next tick when the prediction is not in the future).
    pub open spec fn wakeup_event(self, self_index: usize, now: u64) -> ProposedEvent {
        ProposedEvent {
            due_time: DelayDistribution {
                mean_ticks: if self.next_wakeup_sat() > now {
                    (self.next_wakeup_sat() - now) as u64
                } else {
                    1u64
                },
                cv_hundredths: 0u32,
            },
            handler: Handler::Wakeup { resource: self_index },
        }
    }

    /// Propose a wakeup event for the earliest outstanding tenancy, unless
    /// an identical wakeup time was proposed recently; the memo suppresses
    /// duplicate wakeups. Returns nothing while the resource is idle.
    /// `self_index` is this resource's index in the simulation's arena.
    pub fn maybe_generate_wakeup_event(&mut self, self_index: usize, now: u64) -> (r: Option<
        Vec<ProposedEvent>,
    >)
        requires
            old(self).wf(),
        ensures
            final(self).wf(),
            final(self).tenancies == old(self).tenancies,
            final(self).resource_timer == old(self).resource_timer,
            final(self).resource_timer_last_updated_real_time == old(self).resource_timer_last_updated_real_time,
            final(self).utilization_counter == old(self).utilization_counter,
            final(self).load_counter == old(self).load_counter,
            final(self).partitions == old(self).partitions,
            final(self).id == old(self).id,
            final(self).rng == old(self).rng,
            r is None <==> old(self).tenancies@.len() == 0,
            r is None ==> *final(self) == *old(self),
            old(self).tenancies@.len() > 0 && old(self).wakeup_event_memo@.contains(old(self).next_wakeup_sat()) ==> {
                &&& r matches Some(v) && v@.len() == 0
                &&& *final(self) == *old(self)
            },
            old(self).tenancies@.len() > 0 && !old(self).wakeup_event_memo@.contains(old(self).next_wakeup_sat()) ==> {
                &&& r matches Some(v) && v@.len() == 1 && v@[0] == old(self).wakeup_event(self_index, now)
                &&& final(self).wakeup_event_memo@[0] == old(self).next_wakeup_sat()
                &&& final(self).wakeup_event_memo@.len() <= MAX_WAKEUP_EVENT_MEMO_LEN
            },
    {
        if self.tenancies.len() == 0 {
            return None;
        }
        let t = match self.get_next_wakeup_time() {
            Some(t) => t,
            None => {
                return None;
            },
        };
        let mut found = false;
        let mut i: usize = 0;
        while i < self.wakeup_event_memo.len()
            invariant
                i <= self.wakeup_event_memo@.len(),
                *self == *old(self),
                found <==> exists|j: int| 0 <= j < i && self.wakeup_event_memo@[j] == t,
            decreases self.wakeup_event_memo@.len() - i,
        {
            if self.wakeup_event_memo[i] == t {
                found = true;
            }
            i = i + 1;
        }
        if found {
            return Some(Vec::new());
        }
        if self.wakeup_event_memo.len() >= MAX_WAKEUP_EVENT_MEMO_LEN {
            self.wakeup_event_memo.truncate(MAX_WAKEUP_EVENT_MEMO_LEN - 1);
        }
        self.wakeup_event_memo.insert(0, t);
        let mean: u64 = if t > now {
            t - now
        } else {
            1
        };
        let mut v: Vec<ProposedEvent> = Vec::new();
        v.push(
            ProposedEvent {
                due_time: DelayDistribution { mean_ticks: mean, cv_hundredths: 0 },
                handler: Handler::Wakeup { resource: self_index },
            },
        );
        Some(v)
    }

    /// Remove and return the earliest outstanding tenancy.
    pub fn pop_front_tenancy(&mut self) -> (t: SharedRateTenancy)
        requires
            old(self).wf(),
            old(self).tenancies@.len() > 0,
        ensures
            final(self).wf(),
            t == old(self).tenancies@[0],
            final(self).tenancies@ == old(self).tenancies@.subrange(
                1,
                old(self).tenancies@.len() as int,
            ),
            final(self).resource_timer == old(self).resource_timer,
            final(self).resource_timer_last_updated_real_time == old(self).resource_timer_last_updated_real_time,
            final(self).utilization_counter == old(self).utilization_counter,
            final(self).load_counter == old(self).load_counter,
            final(self).wakeup_event_memo == old(self).wakeup_event_memo,
            final(self).partitions == old(self).partitions,
            final(self).id == old(self).id,
            final(self).rng == old(self).rng,
    {
        let t = self.tenancies.remove(0);
        proof {
            old(self).tenancies@.remove_ensures(0);
            assert(self.tenancies@ =~= old(self).tenancies@.subrange(
                1,
                old(self).tenancies@.len() as int,
            ));
            assert forall|i: int, j: int|
                0 <= i <= j < self.tenancies@.len() implies self.tenancies@[i].due_timer_time
                <= self.tenancies@[j].due_timer_time by {
                assert(self.tenancies@[i] == old(self).tenancies@[i + 1]);
                assert(self.tenancies@[j] == old(self).tenancies@[j + 1]);
            }
            if self.tenancies@.len() > 0 {
                assert(self.tenancies@[0] == old(self).tenancies@[1]);
            }
        }
        t
    }
}

impl SharedRateResource {
    /// Mint a tenancy on a shared-rate resource and propose the wakeup that
    /// will serve it, against the resource arena of the simulation.
    #[verifier::rlimit(100)]
    #[verifier::spinoff_prover]
    pub fn mk_shared_rate_event<S: DelaySampler>(
        sim: &mut BaseQueueSimulation,
    resource: usize,
    current_timestamp: u64,
    required_resource_time: DelayDistribution,
    inner_handler: TenancyWork,
    sampler: &mut S,
) -> (r: Vec<ProposedEvent>)
    requires
        old(sim).wf(),
        (resource as int) < old(sim).resources@.len(),
        old(sim).resources@[resource as int].resource_timer_last_updated_real_time
            <= current_timestamp,
    ensures
        final(sim).wf(),
        old(sim).evolves_to(*final(sim)),
        final(sim).queues == old(sim).queues,
        final(sim).workers == old(sim).workers,
        final(sim).status_cells == old(sim).status_cells,
        final(sim).pools == old(sim).pools,
        final(sim).log == old(sim).log,
        final(sim).worker_tokens_checked_out == old(sim).worker_tokens_checked_out,
        final(sim).worker_token_duration == old(sim).worker_token_duration,
        final(sim).metric_reports == old(sim).metric_reports,
        final(sim).simulation == old(sim).simulation,
        final(sim).stopped == old(sim).stopped,
        final(sim).resources@.len() == old(sim).resources@.len(),
        forall|ri: int|
            0 <= ri < old(sim).resources@.len() && ri != resource ==> final(sim).resources@[ri]
                == old(sim).resources@[ri],
        final(sim).resources@[resource as int].tenancies@.len() == old(sim).resources@[resource as int].tenancies@.len() + 1,
        final(sim).resources@[resource as int].resource_timer_last_updated_real_time
            == current_timestamp,
        final(sim).resources@[resource as int].partitions == old(sim).resources@[resource as int].partitions,
        final(sim).resources@[resource as int].id == old(sim).resources@[resource as int].id,
        r@.len() <= 1,
        r@.len() == (if old(sim).resources@[resource as int].wakeup_event_memo@.contains(
            final(sim).resources@[resource as int].next_wakeup_sat(),
        ) {
            0int
        } else {
            1int
        }),
        r@.len() == 1 ==> r@[0].due_time.mean_ticks == (if final(sim).resources@[resource as int].next_wakeup_sat() > current_timestamp {
            (final(sim).resources@[resource as int].next_wakeup_sat() - current_timestamp) as u64
        } else {
            1u64
        }),
        r@.len() == 1 ==> final(sim).resources@[resource as int].wakeup_event_memo@[0] == final(sim).resources@[resource as int].next_wakeup_sat(),
        forall|i: int|
            0 <= i < r@.len() ==> ((#[trigger] r@[i]).handler matches Handler::Wakeup {
                resource: rr,
            } && rr == resource && r@[i].due_time.cv_hundredths == 0),
        forall|i: int|
            0 <= i < r@.len() ==> event_tokens_fresh(
                r@[i],
                final(sim).workers@.len() as int,
                current_timestamp,
            ),
{
    let _due = sim.resources[resource].add_tenancy(
        current_timestamp,
        required_resource_time,
        inner_handler,
        sampler,
    );
    let ghost smid = *sim;
    let r = match sim.resources[resource].maybe_generate_wakeup_event(
        resource,
        current_timestamp,
    ) {
        Some(v) => v,
        None => Vec::new(),
    };
    proof {
        assert forall|ri: int| 0 <= ri < sim.resources@.len() implies sim.resources@[ri].wf() by {
            if ri != resource {
                assert(old(sim).resources@[ri].wf());
            }
        }
        assert forall|qi: int| 0 <= qi < sim.queues@.len() implies sim.queue_wf(qi) by {
            assert(old(sim).queue_wf(qi));
        }
        assert forall|wi: int| 0 <= wi < sim.workers@.len() implies sim.worker_wf(wi) by {
            assert(old(sim).worker_wf(wi));
        }
        assert forall|pi: int| 0 <= pi < sim.pools@.len() implies sim.pool_wf(pi) by {
            assert(old(sim).pool_wf(pi));
        }
        assert forall|i: int| 0 <= i < r@.len() implies event_tokens_fresh(
            r@[i],
            sim.workers@.len() as int,
            current_timestamp,
        ) by {}
        assert(sim.resources@[resource as int].tenancies@ == smid.resources@[resource as int].tenancies@);
        assert(sim.resources@[resource as int].resource_timer == smid.resources@[resource as int].resource_timer);
        assert(sim.resources@[resource as int].resource_timer_last_updated_real_time == smid.resources@[resource as int].resource_timer_last_updated_real_time);
        assert(sim.resources@[resource as int].partitions == smid.resources@[resource as int].partitions);
        assert(sim.resources@[resource as int].next_wakeup_spec() == smid.resources@[resource as int].next_wakeup_spec());
        assert(sim.resources@[resource as int].next_wakeup_sat() == smid.resources@[resource as int].next_wakeup_sat());
        assert(old(sim).resources@[resource as int].wakeup_event_memo == smid.resources@[resource as int].wakeup_event_memo);
        lemma_prefix_refl(old(sim).log@);
        lemma_prefix_refl(old(sim).worker_tokens_checked_out@);
        lemma_prefix_refl(old(sim).worker_token_duration@);
        lemma_prefix_refl(old(sim).metric_reports@);
    }
    r
}
}

/// Serve a wakeup on a shared-rate resource: pop every tenancy whose
/// predicted arrival is due, advance the timer, run the matured tenancies in
/// a random order, and propose the next wakeup for whatever remains.
#[verifier::loop_isolation(false)]
#[verifier::rlimit(100)]
#[verifier::spinoff_prover]
pub fn dispatch_wakeup(sim: &mut BaseQueueSimulation, resource: usize, timestamp: u64) -> (r: Vec<
    ProposedEvent,
>)
    requires
        old(sim).wf(),
        (resource as int) < old(sim).resources@.len(),
        old(sim).resources@[resource as int].resource_timer_last_updated_real_time <= timestamp,
    ensures
        final(sim).wf(),
        old(sim).evolves_to(*final(sim)),
        final(sim).queues == old(sim).queues,
        final(sim).workers == old(sim).workers,
        final(sim).status_cells == old(sim).status_cells,
        final(sim).pools == old(sim).pools,
        final(sim).worker_tokens_checked_out == old(sim).worker_tokens_checked_out,
        final(sim).worker_token_duration == old(sim).worker_token_duration,
        final(sim).metric_reports == old(sim).metric_reports,
        final(sim).simulation == old(sim).simulation,
        final(sim).stopped == old(sim).stopped,
        final(sim).resources@.len() == old(sim).resources@.len(),
        forall|ri: int|
            0 <= ri < old(sim).resources@.len() && ri != resource ==> final(sim).resources@[ri]
                == old(sim).resources@[ri],
        final(sim).resources@[resource as int].resource_timer_last_updated_real_time == timestamp
            || final(sim).resources@[resource as int].resource_timer_last_updated_real_time == old(sim).resources@[resource as int].resource_timer_last_updated_real_time,
        r@.len() <= 1,
        final(sim).resources@[resource as int].tenancies@.len() > 0 ==> final(sim).resources@[resource as int].next_wakeup_spec() > timestamp,
        final(sim).log@.len() == old(sim).log@.len() ==> (final(sim).resources@[resource as int].resource_timer
            == old(sim).resources@[resource as int].resource_timer && final(sim).resources@[resource as int].resource_timer_last_updated_real_time
            == old(sim).resources@[resource as int].resource_timer_last_updated_real_time && final(sim).resources@[resource as int].utilization_counter
            == old(sim).resources@[resource as int].utilization_counter && final(sim).resources@[resource as int].load_counter
            == old(sim).resources@[resource as int].load_counter),
        exists|m: int|
            {
                &&& 0 <= m <= old(sim).resources@[resource as int].tenancies@.len()
                &&& final(sim).resources@[resource as int].tenancies@ == old(sim).resources@[resource as int].tenancies@.subrange(
                    m,
                    old(sim).resources@[resource as int].tenancies@.len() as int,
                )
                &&& final(sim).log@.len() == old(sim).log@.len() + m
                &&& forall|k: int|
                    old(sim).log@.len() <= k < final(sim).log@.len() ==> {
                        &&& (#[trigger] final(sim).log@[k]).kind == LogKind::TenancyDone
                        &&& final(sim).log@[k].timestamp == timestamp
                        &&& exists|p: int|
                            0 <= p < m && (#[trigger] old(sim).resources@[resource as int].tenancies@[p]).handler.tag
                                == final(sim).log@[k].tag
                    }
            },
        BaseQueueSimulation::log_extended_at(old(sim).log@, final(sim).log@, timestamp),
        count_invoked(final(sim).log@) == count_invoked(old(sim).log@),
        forall|i: int|
            0 <= i < r@.len() ==> ((#[trigger] r@[i]).handler matches Handler::Wakeup {
                resource: rr,
            } && rr == resource && r@[i].due_time.cv_hundredths == 0),
        forall|i: int|
            0 <= i < r@.len() ==> event_tokens_fresh(
                r@[i],
                final(sim).workers@.len() as int,
                timestamp,
            ),
{
    let ghost t0 = old(sim).resources@[resource as int].tenancies@;
    let mut works: Vec<TenancyWork> = Vec::new();
    let mut done = false;
    while !done
        invariant
            done ==> (sim.resources@[resource as int].tenancies@.len() == 0 || sim.resources@[resource as int].next_wakeup_sat() > timestamp),
            sim.wf(),
            (resource as int) < sim.resources@.len(),
            sim.resources@.len() == old(sim).resources@.len(),
            works@.len() <= t0.len(),
            sim.resources@[resource as int].tenancies@ == t0.subrange(
                works@.len() as int,
                t0.len() as int,
            ),
            sim.resources@[resource as int].resource_timer_last_updated_real_time == old(sim).resources@[resource as int].resource_timer_last_updated_real_time,
            sim.resources@[resource as int].resource_timer == old(sim).resources@[resource as int].resource_timer,
            sim.resources@[resource as int].wakeup_event_memo == old(sim).resources@[resource as int].wakeup_event_memo,
            sim.resources@[resource as int].utilization_counter == old(sim).resources@[resource as int].utilization_counter,
            sim.resources@[resource as int].load_counter == old(sim).resources@[resource as int].load_counter,
            sim.resources@[resource as int].partitions == old(sim).resources@[resource as int].partitions,
            sim.resources@[resource as int].id == old(sim).resources@[resource as int].id,
            sim.resources@[resource as int].rng == old(sim).resources@[resource as int].rng,
            forall|ri: int|
                0 <= ri < old(sim).resources@.len() && ri != resource ==> sim.resources@[ri] == old(sim).resources@[ri],
            sim.queues == old(sim).queues,
            sim.workers == old(sim).workers,
            sim.status_cells == old(sim).status_cells,
            sim.pools == old(sim).pools,
            sim.log == old(sim).log,
            sim.worker_tokens_checked_out == old(sim).worker_tokens_checked_out,
            sim.worker_token_duration == old(sim).worker_token_duration,
            sim.metric_reports == old(sim).metric_reports,
            sim.simulation == old(sim).simulation,
            sim.stopped == old(sim).stopped,
            forall|j: int| 0 <= j < works@.len() ==> (#[trigger] works@[j]) == t0[j].handler,
        decreases sim.resources@[resource as int].tenancies@.len() * 2 + (if done {
            0int
        } else {
            1int
        }),
    {
        if sim.resources[resource].tenancies.len() == 0 {
            done = true;
        } else {
            let wt = match sim.resources[resource].get_next_wakeup_time() {
                Some(wt) => wt,
                None => {
                    proof {
                        assert(sim.resources@[resource as int].tenancies@.len() == 0);
                    }
                    0
                },
            };
            if wt > timestamp {
                done = true;
            } else {
                let ghost pre = *sim;
                let t = sim.resources[resource].pop_front_tenancy();
                works.push(t.handler);
                proof {
                    assert(t == pre.resources@[resource as int].tenancies@[0]);
            assert(pre.resources@[resource as int].tenancies@[0] == t0[works@.len() - 1]);
            assert(works@.last() == t0[works@.len() - 1].handler);
            assert(sim.resources@[resource as int].tenancies@ =~= t0.subrange(
                works@.len() as int,
                t0.len() as int,
            ));
            assert forall|ri: int| 0 <= ri < sim.resources@.len() implies sim.resources@[ri].wf() by {
                if ri != resource {
                    assert(pre.resources@[ri].wf());
                }
            }
            assert forall|qi: int| 0 <= qi < sim.queues@.len() implies sim.queue_wf(qi) by {
                assert(pre.queue_wf(qi));
            }
            assert forall|wi: int| 0 <= wi < sim.workers@.len() implies sim.worker_wf(wi) by {
                assert(pre.worker_wf(wi));
            }
            assert forall|pi: int| 0 <= pi < sim.pools@.len() implies sim.pool_wf(pi) by {
                assert(pre.pool_wf(pi));
            }
                }
            }
        }
    }
    if works.len() > 0 {
        let ghost pre2 = *sim;
        sim.resources[resource].update_resource_timer(timestamp);
        proof {
            assert forall|ri: int| 0 <= ri < sim.resources@.len() implies sim.resources@[ri].wf() by {
                if ri != resource {
                    assert(pre2.resources@[ri].wf());
                }
            }
            assert forall|qi: int| 0 <= qi < sim.queues@.len() implies sim.queue_wf(qi) by {
                assert(pre2.queue_wf(qi));
            }
            assert forall|wi: int| 0 <= wi < sim.workers@.len() implies sim.worker_wf(wi) by {
                assert(pre2.worker_wf(wi));
            }
            assert forall|pi: int| 0 <= pi < sim.pools@.len() implies sim.pool_wf(pi) by {
                assert(pre2.pool_wf(pi));
            }
        }
    }
    proof {
        assert(sim.resources@[resource as int].tenancies@.len() > 0 ==> sim.resources@[resource as int].next_wakeup_spec() > timestamp) by {
            if sim.resources@[resource as int].tenancies@.len() > 0 {
                let rsc = sim.resources@[resource as int];
                if works@.len() > 0 {
                    assert(rsc.resource_timer_last_updated_real_time == timestamp);
                    let dd = rsc.tenancies@[0].due_timer_time - rsc.resource_timer;
                    assert(dd >= 1);
                    let k = rsc.tenancies@.len() as int;
                    let n = rsc.partitions as int;
                    if k > n {
                        assert((dd * k) / n >= 1) by (nonlinear_arith)
                            requires
                                dd >= 1,
                                k > n,
                                n >= 1,
                        ;
                    }
                } else {
                    assert(rsc.next_wakeup_sat() > timestamp);
                    assert(rsc.next_wakeup_spec() >= rsc.next_wakeup_sat() as int);
                }
            }
        }
    }
    let ghost works_pre = works@;
    let ghost pre3 = *sim;
    shuffle(&mut works, &mut sim.resources[resource].rng);
    proof {
        assert forall|ri: int| 0 <= ri < sim.resources@.len() implies sim.resources@[ri].wf() by {
            if ri != resource {
                assert(pre3.resources@[ri].wf());
            } else {
                assert(pre3.resources@[ri].wf());
                assert(sim.resources@[ri].tenancies == pre3.resources@[ri].tenancies);
                assert(sim.resources@[ri].resource_timer == pre3.resources@[ri].resource_timer);
                assert(sim.resources@[ri].wakeup_event_memo == pre3.resources@[ri].wakeup_event_memo);
                assert(sim.resources@[ri].partitions == pre3.resources@[ri].partitions);
            }
        }
        assert forall|qi: int| 0 <= qi < sim.queues@.len() implies sim.queue_wf(qi) by {
            assert(pre3.queue_wf(qi));
        }
        assert forall|wi: int| 0 <= wi < sim.workers@.len() implies sim.worker_wf(wi) by {
            assert(pre3.worker_wf(wi));
        }
        assert forall|pi: int| 0 <= pi < sim.pools@.len() implies sim.pool_wf(pi) by {
            assert(pre3.pool_wf(pi));
        }
        works_pre.to_multiset_ensures();
        works@.to_multiset_ensures();
        assert(works@.len() == works_pre.len());
        assert forall|j: int|
            0 <= j < works@.len() implies exists|p: int|
            0 <= p < works@.len() && (#[trigger] t0[p]).handler == (#[trigger] works@[j]) by {
            assert(works@[j] == works@.index(j));
            assert(works@.contains(works@[j]));
            assert(works@.to_multiset().count(works@[j]) > 0);
            assert(works_pre.contains(works@[j]));
            let p = choose|p: int| 0 <= p < works_pre.len() && works_pre[p] == works@[j];
            assert(t0[p].handler == works@[j]);
        }
        assert(sim.resources@[resource as int].tenancies@.len() > 0 ==> sim.resources@[resource as int].next_wakeup_spec() > timestamp) by {
            if sim.resources@[resource as int].tenancies@.len() > 0 {
                assert(pre3.resources@[resource as int].next_wakeup_spec() > timestamp);
            }
        }
    }
    let ghost log_before_works = sim.log@;
    let ghost res_before_works = sim.resources@;
    let mut i: usize = 0;
    while i < works.len()
        invariant
            i <= works@.len(),
            sim.wf(),
            (resource as int) < sim.resources@.len(),
            sim.resources@.len() == old(sim).resources@.len(),
            sim.queues == old(sim).queues,
            sim.workers == old(sim).workers,
            sim.status_cells == old(sim).status_cells,
            sim.pools == old(sim).pools,
            sim.worker_tokens_checked_out == old(sim).worker_tokens_checked_out,
            sim.worker_token_duration == old(sim).worker_token_duration,
            sim.metric_reports == old(sim).metric_reports,
            sim.simulation == old(sim).simulation,
            sim.stopped == old(sim).stopped,
            sim.resources@ == res_before_works,
            BaseQueueSimulation::log_extended_at(log_before_works, sim.log@, timestamp),
            count_invoked(sim.log@) == count_invoked(log_before_works),
            sim.log@.len() == log_before_works.len() + i,
            forall|k: int|
                log_before_works.len() <= k < sim.log@.len() ==> {
                    &&& (#[trigger] sim.log@[k]).kind == LogKind::TenancyDone
                    &&& sim.log@[k].timestamp == timestamp
                    &&& sim.log@[k].tag == works@[k - log_before_works.len()].tag
                },
        decreases works@.len() - i,
    {
        let ghost pre4 = *sim;
        let tag = works[i].tag;
        sim.log.push(LogEntry { timestamp, kind: LogKind::TenancyDone, tag });
        proof {
            lemma_count_invoked_push(
                pre4.log@,
                LogEntry { timestamp, kind: LogKind::TenancyDone, tag },
            );
            lemma_wf_same_components(pre4, *sim);
            lemma_prefix_push(
                pre4.log@,
                LogEntry { timestamp, kind: LogKind::TenancyDone, tag },
            );
            crate::simulation::lemma_prefix_trans(log_before_works, pre4.log@, sim.log@);
            crate::simulation::lemma_prefix_index(log_before_works, pre4.log@);
        }
        i = i + 1;
    }
    let ghost smid = *sim;
    let r = match sim.resources[resource].maybe_generate_wakeup_event(resource, timestamp) {
        Some(v) => v,
        None => Vec::new(),
    };
    proof {
        assert forall|ri: int| 0 <= ri < sim.resources@.len() implies sim.resources@[ri].wf() by {
            if ri != resource {
                assert(smid.resources@[ri].wf());
            }
        }
        assert forall|qi: int| 0 <= qi < sim.queues@.len() implies sim.queue_wf(qi) by {
            assert(smid.queue_wf(qi));
        }
        assert forall|wi: int| 0 <= wi < sim.workers@.len() implies sim.worker_wf(wi) by {
            assert(smid.worker_wf(wi));
        }
        assert forall|pi: int| 0 <= pi < sim.pools@.len() implies sim.pool_wf(pi) by {
            assert(smid.pool_wf(pi));
        }
        lemma_prefix_refl(old(sim).worker_tokens_checked_out@);
        lemma_prefix_refl(old(sim).worker_token_duration@);
        lemma_prefix_refl(old(sim).metric_reports@);
        let m = works_pre.len() as int;
        assert(sim.resources@[resource as int].tenancies@ == t0.subrange(m, t0.len() as int));
        assert(sim.log@.len() == old(sim).log@.len() + m);
        assert forall|k: int|
            old(sim).log@.len() <= k < sim.log@.len() implies {
            &&& (#[trigger] sim.log@[k]).kind == LogKind::TenancyDone
            &&& sim.log@[k].timestamp == timestamp
            &&& exists|p: int| 0 <= p < m && t0[p].handler.tag == sim.log@[k].tag
        } by {
            assert(sim.log@[k] == smid.log@[k]);
            assert(smid.log@[k].tag == works@[k - old(sim).log@.len()].tag);
            let j = k - old(sim).log@.len();
            assert(exists|p: int|
                0 <= p < works@.len() && (#[trigger] t0[p]).handler == works@[j]);
            let p = choose|p: int| 0 <= p < works@.len() && (#[trigger] t0[p]).handler == works@[j];
            assert(t0[p].handler.tag == sim.log@[k].tag);
        }
        assert(sim.resources@[resource as int].tenancies@.len() > 0 ==> sim.resources@[resource as int].next_wakeup_spec() > timestamp) by {
            if sim.resources@[resource as int].tenancies@.len() > 0 {
                assert(smid.resources@[resource as int].next_wakeup_spec() > timestamp);
            }
        }
    }
    r
}

} // verus!
