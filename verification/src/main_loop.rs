use vstd::prelude::*;

use crate::args_rets::{
    event_tokens_fresh, DelayDistribution, DelaySampler, Handler, ProposedEvent,
};
use crate::queue::{
    restored_duration_records, tokens_distinct_workers, Queue, WorkerState, WorkerToken,
};
use crate::rng::shuffle;
use crate::shared_rate_resource::{dispatch_wakeup, SharedRateResource};
use crate::simulation::{
    count_invoked, lemma_count_invoked_push, lemma_evolves_trans, lemma_log_extended_trans,
    lemma_prefix_push, lemma_prefix_refl, lemma_wf_same_components, BaseQueueSimulation,
    CheckoutRecord, LogEntry, LogKind, MetricsReport, QueueSimulation,
    METRICS_SAMPLING_PERIOD_SECONDS, TICKS_PER_SECOND,
};

verus! {

/// A proposed event whose delay has been sampled: it runs at the absolute
/// tick `due_time`.
pub struct ScheduledEvent {
    pub due_time: u64,
    pub handler: Handler,
}

/// A handler only names components that exist in the simulation's arenas.
pub open spec fn handler_wf(sim: BaseQueueSimulation, h: Handler) -> bool {
    match h {
        Handler::Repeat { .. } => true,
        Handler::Record { .. } => true,
        Handler::Stop => true,
        Handler::MetricCollection => true,
        Handler::SetStatus { cell, to } => (cell as int) < sim.status_cells@.len(),
        Handler::Enqueued { queue, work } => (queue as int) < sim.queues@.len(),
        Handler::RestoreTokens { tokens, tag } => forall|i: int|
            0 <= i < tokens@.len() ==> ((#[trigger] tokens@[i]).worker as int)
                < sim.workers@.len(),
        Handler::SharedRate { resource, required, tenancy } => (resource as int)
            < sim.resources@.len(),
        Handler::Wakeup { resource } => (resource as int) < sim.resources@.len(),
    }
}

/// Every token the handler carries was checked out strictly before `ts`.
pub open spec fn handler_tokens_before(h: Handler, ts: u64) -> bool {
    match h {
        Handler::RestoreTokens { tokens, tag } => forall|i: int|
            0 <= i < tokens@.len() ==> (#[trigger] tokens@[i]).checkout_timestamp < ts,
        _ => true,
    }
}

/// The tag a handler's invocation is logged under.
pub open spec fn handler_tag_spec(h: Handler) -> u64 {
    match h {
        Handler::Repeat { remaining, due_time, tag } => tag,
        Handler::Record { tag } => tag,
        Handler::Stop => 0u64,
        Handler::MetricCollection => 0u64,
        Handler::SetStatus { cell, to } => 0u64,
        Handler::Enqueued { queue, work } => work.tag,
        Handler::RestoreTokens { tokens, tag } => tag,
        Handler::SharedRate { resource, required, tenancy } => tenancy.tag,
        Handler::Wakeup { resource } => 0u64,
    }
}

fn handler_tag(h: &Handler) -> (t: u64)
    ensures
        t == handler_tag_spec(*h),
{
    match h {
        Handler::Repeat { remaining, due_time, tag } => *tag,
        Handler::Record { tag } => *tag,
        Handler::Stop => 0u64,
        Handler::MetricCollection => 0u64,
        Handler::SetStatus { cell, to } => 0u64,
        Handler::Enqueued { queue, work } => work.tag,
        Handler::RestoreTokens { tokens, tag } => *tag,
        Handler::SharedRate { resource, required, tenancy } => tenancy.tag,
        Handler::Wakeup { resource } => 0u64,
    }
}

/// Timestamps never regress along the log.
pub open spec fn log_monotone(s: Seq<LogEntry>) -> bool {
    forall|i: int, j: int| 0 <= i <= j < s.len() ==> s[i].timestamp <= s[j].timestamp
}

/// The event heap is sorted by due time, earliest first.
pub open spec fn events_sorted(s: Seq<ScheduledEvent>) -> bool {
    forall|i: int, j: int| 0 <= i <= j < s.len() ==> s[i].due_time <= s[j].due_time
}

/// Unsigned 64-bit addition, saturating at the end of representable time.
pub open spec fn sat_add64(a: u64, b: u64) -> u64 {
    if a + b > u64::MAX as int {
        u64::MAX
    } else {
        (a + b) as u64
    }
}

/// A log extended only with entries at `ts`, at or after everything already
/// there, stays monotone.
pub proof fn lemma_log_monotone_extend(pre: Seq<LogEntry>, post: Seq<LogEntry>, ts: u64)
    requires
        BaseQueueSimulation::log_extended_at(pre, post, ts),
        log_monotone(pre),
        forall|i: int| 0 <= i < pre.len() ==> (#[trigger] pre[i]).timestamp <= ts,
    ensures
        log_monotone(post),
        forall|i: int| 0 <= i < post.len() ==> (#[trigger] post[i]).timestamp <= ts,
{
    crate::simulation::lemma_prefix_index(pre, post);
    assert forall|i: int, j: int| 0 <= i <= j < post.len() implies post[i].timestamp
        <= post[j].timestamp by {
        if i < pre.len() {
            assert(post[i] == pre[i]);
        }
        if j < pre.len() {
            assert(post[j] == pre[j]);
        }
    }
    assert forall|i: int| 0 <= i < post.len() implies (#[trigger] post[i]).timestamp <= ts by {
        if i < pre.len() {
            assert(post[i] == pre[i]);
        }
    }
}

/// A handler that names only existing components still does after the
/// component structure evolves.
pub proof fn lemma_handler_wf_evolves(a: BaseQueueSimulation, b: BaseQueueSimulation, h: Handler)
    requires
        a.evolves_to(b),
        handler_wf(a, h),
    ensures
        handler_wf(b, h),
{
}

/// Count one handler invocation: bump the `events_dispatched` counter
/// (saturating at the machine bound) and log the invocation.
fn note_invocation(sim: &mut BaseQueueSimulation, tag: u64, timestamp: u64)
    requires
        old(sim).wf(),
    ensures
        final(sim).wf(),
        final(sim).log@ == old(sim).log@.push(
            LogEntry { timestamp, kind: LogKind::Invoked, tag },
        ),
        count_invoked(final(sim).log@) == count_invoked(old(sim).log@) + 1,
        final(sim).queues == old(sim).queues,
        final(sim).workers == old(sim).workers,
        final(sim).status_cells == old(sim).status_cells,
        final(sim).resources == old(sim).resources,
        final(sim).pools == old(sim).pools,
        final(sim).worker_tokens_checked_out == old(sim).worker_tokens_checked_out,
        final(sim).worker_token_duration == old(sim).worker_token_duration,
        final(sim).metric_reports == old(sim).metric_reports,
        final(sim).simulation.id == old(sim).simulation.id,
        final(sim).simulation.rng == old(sim).simulation.rng,
        final(sim).stopped == old(sim).stopped,
{
    if sim.simulation.events_dispatched < u64::MAX {
        sim.simulation.events_dispatched = sim.simulation.events_dispatched + 1;
    }
    sim.log.push(LogEntry { timestamp, kind: LogKind::Invoked, tag });
    proof {
        lemma_count_invoked_push(old(sim).log@, LogEntry { timestamp, kind: LogKind::Invoked, tag });
        lemma_wf_same_components(*old(sim), *sim);
    }
}


/// Interpret one handler against the simulation at `timestamp`: mutate the
/// component state and return the events it proposes. Exactly one
/// invocation is counted and logged, and every log entry the handler
/// appends carries `timestamp`.
#[verifier::rlimit(100)]
#[verifier::spinoff_prover]
pub fn dispatch<S: DelaySampler>(
    sim: &mut BaseQueueSimulation,
    sampler: &mut S,
    h: Handler,
    timestamp: u64,
) -> (r: Vec<ProposedEvent>)
    requires
        old(sim).wf(),
        handler_wf(*old(sim), h),
        handler_tokens_before(h, timestamp),
        forall|ri: int|
            0 <= ri < old(sim).resources@.len() ==> (#[trigger] old(sim).resources@[ri]).resource_timer_last_updated_real_time
                <= timestamp,
    ensures
        final(sim).wf(),
        old(sim).evolves_to(*final(sim)),
        BaseQueueSimulation::log_extended_at(old(sim).log@, final(sim).log@, timestamp),
        count_invoked(final(sim).log@) == count_invoked(old(sim).log@) + 1,
        final(sim).simulation.id == old(sim).simulation.id,
        forall|i: int|
            0 <= i < r@.len() ==> handler_wf(*final(sim), (#[trigger] r@[i]).handler),
        forall|i: int|
            0 <= i < r@.len() ==> event_tokens_fresh(
                r@[i],
                final(sim).workers@.len() as int,
                timestamp,
            ),
        forall|ri: int|
            0 <= ri < final(sim).resources@.len() ==> (#[trigger] final(sim).resources@[ri]).resource_timer_last_updated_real_time
                <= timestamp,
        final(sim).stopped == (old(sim).stopped || h matches Handler::Stop),
        forall|i: int|
            old(sim).worker_token_duration@.len() <= i < final(sim).worker_token_duration@.len()
                ==> (#[trigger] final(sim).worker_token_duration@[i]).ticks >= 1,
        h matches Handler::Record { tag } ==> r@.len() == 0,
        h matches Handler::Stop ==> r@.len() == 0,
        h matches Handler::SetStatus { cell, to } ==> (r@.len() == 0 && final(sim).status_cells@
            == old(sim).status_cells@.update(cell as int, to)),
        h matches Handler::Repeat { remaining, due_time, tag } ==> {
            &&& r@.len() == (if remaining > 0 {
                1int
            } else {
                0int
            })
            &&& remaining > 0 ==> r@[0] == (ProposedEvent {
                due_time,
                handler: Handler::Repeat { remaining: (remaining - 1) as u32, due_time, tag },
            })
        },
        h matches Handler::MetricCollection ==> {
            &&& r@.len() == 1
            &&& r@[0].handler matches Handler::MetricCollection
            &&& r@[0].due_time == (DelayDistribution {
                mean_ticks: (METRICS_SAMPLING_PERIOD_SECONDS * TICKS_PER_SECOND) as u64,
                cv_hundredths: 0u32,
            })
            &&& final(sim).metric_reports@.len() == old(sim).metric_reports@.len() + 1
            &&& final(sim).metric_reports@.last().timestamp == timestamp
        },
        h matches Handler::Enqueued { queue, work } ==> {
            &&& forall|qi: int|
                0 <= qi < old(sim).queues@.len() && qi != queue ==> (#[trigger] final(sim).queues@[qi]).deque == old(sim).queues@[qi].deque
            &&& (old(sim).queues@[queue as int].deque@.len() > 0 ==> (final(sim).queues@[queue as int].deque@
                == old(sim).queues@[queue as int].deque@.push(work) && r@.len() == 0 && final(sim).workers == old(sim).workers && final(sim).worker_tokens_checked_out == old(sim).worker_tokens_checked_out))
            &&& (old(sim).queues@[queue as int].deque@.len() == 0 ==> ({
                ||| (final(sim).queues@[queue as int].deque@ == old(sim).queues@[queue as int].deque@.push(work) && r@.len() == 0 && final(sim).worker_tokens_checked_out == old(sim).worker_tokens_checked_out)
                ||| exists|w: usize|
                    {
                        &&& (w as int) < old(sim).workers@.len()
                        &&& old(sim).queues@[queue as int].listening_workers@.contains(w)
                        &&& old(sim).workers@[w as int].state == WorkerState::Listening
                        &&& final(sim).workers@[w as int].state == WorkerState::CheckedOut
                        &&& final(sim).queues@[queue as int].deque@ == old(sim).queues@[queue as int].deque@
                        &&& final(sim).worker_tokens_checked_out@ == old(sim).worker_tokens_checked_out@.push(
                            CheckoutRecord {
                                worker_id: old(sim).workers@[w as int].id,
                                queue,
                                timestamp,
                            },
                        )
                        &&& r@.len() == 1
                        &&& r@[0].due_time == work.restore_delay
                        &&& (r@[0].handler matches Handler::RestoreTokens { tokens, tag } && tokens@
                            =~= seq![
                            WorkerToken {
                                worker: w,
                                worker_id: old(sim).workers@[w as int].id,
                                checkout_timestamp: timestamp,
                                originating_queue: queue,
                            },
                        ] && tag == work.tag)
                    }
            }))
        },
        h matches Handler::RestoreTokens { tokens, tag } ==> {
            &&& (tokens_distinct_workers(tokens@) ==> final(sim).worker_token_duration@ == old(sim).worker_token_duration@
                + restored_duration_records(old(sim).workers@, tokens@, timestamp))
            &&& forall|wi: int|
                0 <= wi < old(sim).workers@.len() && (forall|j: int|
                    0 <= j < tokens@.len() ==> ((#[trigger] tokens@[j]).worker as int) != wi) ==> (
                #[trigger] final(sim).workers@[wi]) == old(sim).workers@[wi]
        },
        h matches Handler::SharedRate { resource, required, tenancy } ==> {
            &&& final(sim).resources@[resource as int].tenancies@.len() == old(sim).resources@[resource as int].tenancies@.len() + 1
            &&& final(sim).resources@[resource as int].resource_timer_last_updated_real_time
                == timestamp
            &&& forall|ri: int|
                0 <= ri < old(sim).resources@.len() && ri != resource ==> (#[trigger] final(sim).resources@[ri]) == old(sim).resources@[ri]
            &&& r@.len() <= 1
            &&& final(sim).queues == old(sim).queues
            &&& final(sim).workers == old(sim).workers
        },
        h matches Handler::Wakeup { resource } ==> {
            &&& r@.len() <= 1
            &&& final(sim).queues == old(sim).queues
            &&& final(sim).workers == old(sim).workers
            &&& forall|ri: int|
                0 <= ri < old(sim).resources@.len() && ri != resource ==> (#[trigger] final(sim).resources@[ri]) == old(sim).resources@[ri]
            &&& (final(sim).resources@[resource as int].tenancies@.len() > 0 ==> final(sim).resources@[resource as int].next_wakeup_spec() > timestamp)
            &&& (final(sim).log@.len() == old(sim).log@.len() + 1 ==> (final(sim).resources@[resource as int].resource_timer
                == old(sim).resources@[resource as int].resource_timer && final(sim).resources@[resource as int].resource_timer_last_updated_real_time
                == old(sim).resources@[resource as int].resource_timer_last_updated_real_time))
            &&& exists|m: int|
                {
                    &&& 0 <= m <= old(sim).resources@[resource as int].tenancies@.len()
                    &&& final(sim).resources@[resource as int].tenancies@ == old(sim).resources@[resource as int].tenancies@.subrange(
                        m,
                        old(sim).resources@[resource as int].tenancies@.len() as int,
                    )
                    &&& final(sim).log@.len() == old(sim).log@.len() + 1 + m
                    &&& forall|k: int|
                        old(sim).log@.len() + 1 <= k < final(sim).log@.len() ==> {
                            &&& (#[trigger] final(sim).log@[k]).kind == LogKind::TenancyDone
                            &&& final(sim).log@[k].timestamp == timestamp
                            &&& exists|p: int|
                                0 <= p < m && (#[trigger] old(sim).resources@[resource as int].tenancies@[p]).handler.tag
                                    == final(sim).log@[k].tag
                        }
                }
        },
{
    let ghost h0 = h;
    let tag = handler_tag(&h);
    note_invocation(sim, tag, timestamp);
    let ghost snoted = *sim;
    proof {
        lemma_prefix_push(old(sim).log@, LogEntry { timestamp, kind: LogKind::Invoked, tag });
        lemma_prefix_refl(old(sim).worker_tokens_checked_out@);
        lemma_prefix_refl(old(sim).worker_token_duration@);
        lemma_prefix_refl(old(sim).metric_reports@);
    }
    let r: Vec<ProposedEvent> = match h {
        Handler::Repeat { remaining, due_time, tag: t } => {
            let mut r: Vec<ProposedEvent> = Vec::new();
            if remaining > 0 {
                r.push(
                    ProposedEvent {
                        due_time,
                        handler: Handler::Repeat { remaining: remaining - 1, due_time, tag: t },
                    },
                );
            }
            r
        },
        Handler::Record { tag: t } => Vec::new(),
        Handler::Stop => {
            sim.stopped = true;
            proof {
                lemma_wf_same_components(snoted, *sim);
            }
            Vec::new()
        },
        Handler::MetricCollection => {
            let workers_up = sim.get_up_metric();
            let report = MetricsReport {
                timestamp,
                events_dispatched: sim.simulation.events_dispatched,
                worker_tokens_checked_out: sim.worker_tokens_checked_out.len() as u64,
                worker_token_durations: sim.worker_token_duration.len() as u64,
                workers_up,
            };
            sim.metric_reports.push(report);
            proof {
                lemma_wf_same_components(snoted, *sim);
            }
            let mut r: Vec<ProposedEvent> = Vec::new();
            r.push(
                ProposedEvent {
                    due_time: DelayDistribution {
                        mean_ticks: METRICS_SAMPLING_PERIOD_SECONDS * TICKS_PER_SECOND,
                        cv_hundredths: 0,
                    },
                    handler: Handler::MetricCollection,
                },
            );
            r
        },
        Handler::SetStatus { cell, to } => {
            sim.set_status(cell, to);
            Vec::new()
        },
        Handler::Enqueued { queue, work } => {
            Queue::enqueued_handler_inner(sim, queue, work, timestamp)
        },
        Handler::RestoreTokens { tokens, tag: t } => {
            WorkerToken::restore_tokens(sim, tokens, timestamp)
        },
        Handler::SharedRate { resource, required, tenancy } => {
            SharedRateResource::mk_shared_rate_event(sim, resource, timestamp, required, tenancy, sampler)
        },
        Handler::Wakeup { resource } => dispatch_wakeup(sim, resource, timestamp),
    };
    proof {
        lemma_evolves_trans(*old(sim), snoted, *sim);
        lemma_log_extended_trans(old(sim).log@, snoted.log@, sim.log@, timestamp);
        assert forall|i: int| 0 <= i < r@.len() implies handler_wf(
            *sim,
            (#[trigger] r@[i]).handler,
        ) by {
            match h0 {
                Handler::Repeat { remaining, due_time, tag: t } => {},
                Handler::Record { tag: t } => {},
                Handler::Stop => {},
                Handler::MetricCollection => {},
                Handler::SetStatus { cell, to } => {},
                Handler::Enqueued { queue, work } => {
                    assert(event_tokens_fresh(r@[i], sim.workers@.len() as int, timestamp));
                },
                Handler::RestoreTokens { tokens, tag: t } => {
                    assert(event_tokens_fresh(r@[i], sim.workers@.len() as int, timestamp));
                },
                Handler::SharedRate { resource, required, tenancy } => {},
                Handler::Wakeup { resource } => {},
            }
        }
    }
    r
}

/// Insert a sampled proposed event into the heap. The event is scheduled at
/// the batch time plus the sampled delay, which the caller has clamped to at
/// least one tick; the sum saturates at the end of representable time.
#[verifier::loop_isolation(false)]
pub fn schedule_event(
    event_heap: &mut Vec<ScheduledEvent>,
    batch_due: u64,
    delay: u64,
    handler: Handler,
)
    requires
        events_sorted(old(event_heap)@),
        delay >= 1,
    ensures
        events_sorted(final(event_heap)@),
        final(event_heap)@.len() == old(event_heap)@.len() + 1,
        forall|e: ScheduledEvent|
            final(event_heap)@.contains(e) ==> (old(event_heap)@.contains(e) || e == (
            ScheduledEvent { due_time: sat_add64(batch_due, delay), handler })),
        exists|pos: int|
            0 <= pos <= old(event_heap)@.len() && final(event_heap)@ == old(event_heap)@.insert(
                pos,
                ScheduledEvent { due_time: sat_add64(batch_due, delay), handler },
            ),
{
    let due: u64 = if delay > u64::MAX - batch_due {
        u64::MAX
    } else {
        batch_due + delay
    };
    let ghost pre = event_heap@;
    let mut pos: usize = 0;
    while pos < event_heap.len() && event_heap[pos].due_time <= due
        invariant
            pos <= event_heap@.len(),
            event_heap@ == pre,
            forall|i: int| 0 <= i < pos ==> pre[i].due_time <= due,
        decreases event_heap@.len() - pos,
    {
        pos = pos + 1;
    }
    let e = ScheduledEvent { due_time: due, handler };
    event_heap.insert(pos, e);
    proof {
        pre.insert_ensures(pos as int, e);
        assert forall|i: int, j: int|
            0 <= i <= j < event_heap@.len() implies event_heap@[i].due_time
            <= event_heap@[j].due_time by {
            if pos < pre.len() {
                assert(pre[pos as int].due_time > due);
            }
        }
        assert forall|x: ScheduledEvent| event_heap@.contains(x) implies (pre.contains(x) || x
            == e) by {
            let q = choose|q: int| 0 <= q < event_heap@.len() && event_heap@[q] == x;
            if q < pos {
                assert(pre.contains(pre[q]));
            } else if q > pos {
                assert(pre.contains(pre[q - 1]));
            }
        }
    }
}

/// The virtual-time priority loop: while events are pending and the
/// simulation has neither stopped nor exhausted its invocation budget, pop
/// the batch of earliest events, run the batch in a uniformly shuffled
/// order, sample a delay for every proposed follow-on and push it back into
/// the heap. Handler timestamps never regress, and every follow-on lands at
/// its batch time plus its sampled delay, at least one tick later. Returns
/// how many scheduled events were left unserved, which is zero unless a
/// handler asked to stop or the invocation budget ran out.
#[verifier::loop_isolation(false)]
#[verifier::rlimit(100)]
#[verifier::spinoff_prover]
pub fn main_loop<S: DelaySampler>(
    sim: &mut BaseQueueSimulation,
    initial_events: Vec<ProposedEvent>,
    sampler: &mut S,
    budget: u64,
) -> (pending: usize)
    requires
        old(sim).wf(),
        forall|i: int|
            0 <= i < initial_events@.len() ==> handler_wf(
                *old(sim),
                (#[trigger] initial_events@[i]).handler,
            ),
        forall|i: int|
            0 <= i < initial_events@.len() ==> handler_tokens_before(
                (#[trigger] initial_events@[i]).handler,
                1,
            ),
        forall|k: int| 0 <= k < old(sim).log@.len() ==> (#[trigger] old(sim).log@[k]).timestamp == 0,
        forall|ri: int|
            0 <= ri < old(sim).resources@.len() ==> (#[trigger] old(sim).resources@[ri]).resource_timer_last_updated_real_time
                == 0,
    ensures
        final(sim).wf(),
        old(sim).evolves_to(*final(sim)),
        log_monotone(final(sim).log@),
        count_invoked(final(sim).log@) <= count_invoked(old(sim).log@) + budget,
        !old(sim).stopped && initial_events@.len() > 0 && budget > 0 ==> count_invoked(final(sim).log@) >= count_invoked(old(sim).log@) + 1,
        initial_events@.len() == 0 ==> (*final(sim) == *old(sim) && pending == 0),
        pending > 0 ==> (final(sim).stopped || count_invoked(final(sim).log@) == count_invoked(old(sim).log@) + budget),
        pending == 0 && !final(sim).stopped && count_invoked(final(sim).log@) < count_invoked(old(sim).log@) + budget ==> count_invoked(final(sim).log@) >= count_invoked(old(sim).log@) + initial_events@.len(),
        forall|i: int|
            old(sim).worker_token_duration@.len() <= i < final(sim).worker_token_duration@.len()
                ==> (#[trigger] final(sim).worker_token_duration@[i]).ticks >= 1,
{
    let mut simevent_rng = crate::rng::rng_fork(&sim.simulation.rng);
    let mut schedule_rng = crate::rng::rng_fork(&sim.simulation.rng);
    let mut event_heap: Vec<ScheduledEvent> = Vec::new();
    let mut initial_events = initial_events;
    let ghost n0 = initial_events@.len();
    while initial_events.len() > 0
        invariant
            event_heap@.len() + initial_events@.len() == n0,
            events_sorted(event_heap@),
            forall|i: int|
                0 <= i < initial_events@.len() ==> handler_wf(
                    *old(sim),
                    (#[trigger] initial_events@[i]).handler,
                ),
            forall|i: int|
                0 <= i < initial_events@.len() ==> handler_tokens_before(
                    (#[trigger] initial_events@[i]).handler,
                    1,
                ),
            forall|i: int|
                0 <= i < event_heap@.len() ==> handler_wf(
                    *old(sim),
                    (#[trigger] event_heap@[i]).handler,
                ),
            forall|i: int|
                0 <= i < event_heap@.len() ==> handler_tokens_before(
                    (#[trigger] event_heap@[i]).handler,
                    event_heap@[i].due_time,
                ),
            forall|i: int| 0 <= i < event_heap@.len() ==> 1 <= (#[trigger] event_heap@[i]).due_time,
        decreases initial_events@.len(),
    {
        let ghost ipre = initial_events@;
        let ev = initial_events.remove(0);
        let ghost iev0 = ev;
        proof {
            ipre.remove_ensures(0);
            assert(iev0 == ipre[0]);
            assert forall|i: int|
                0 <= i < initial_events@.len() implies (handler_wf(
                *old(sim),
                (#[trigger] initial_events@[i]).handler,
            ) && handler_tokens_before(initial_events@[i].handler, 1)) by {
                assert(initial_events@[i] == ipre[i + 1]);
            }
        }
        let d = ev.due_time.sample(sampler, &mut schedule_rng);
        let ghost hpre0 = event_heap@;
        schedule_event(&mut event_heap, 0, d, ev.handler);
        proof {
            let newe0 = ScheduledEvent { due_time: sat_add64(0, d), handler: iev0.handler };
            assert(sat_add64(0, d) >= 1);
            assert forall|i: int|
                0 <= i < event_heap@.len() implies (handler_wf(
                *old(sim),
                (#[trigger] event_heap@[i]).handler,
            ) && handler_tokens_before(event_heap@[i].handler, event_heap@[i].due_time) && 1
                <= event_heap@[i].due_time) by {
                assert(event_heap@.contains(event_heap@[i]));
                if event_heap@[i] == newe0 {
                    assert(handler_wf(*old(sim), newe0.handler));
                    assert(handler_tokens_before(iev0.handler, 1));
                } else {
                    assert(hpre0.contains(event_heap@[i]));
                    let j = choose|j: int| 0 <= j < hpre0.len() && hpre0[j] == event_heap@[i];
                }
            }
        }
    }
    let mut dispatched: u64 = 0;
    let ghost mut watermark: u64 = 0;
    proof {
        lemma_prefix_refl(old(sim).log@);
        lemma_prefix_refl(old(sim).worker_tokens_checked_out@);
        lemma_prefix_refl(old(sim).worker_token_duration@);
        lemma_prefix_refl(old(sim).metric_reports@);
    }
    while event_heap.len() > 0 && !sim.stopped && dispatched < budget
        invariant
            sim.wf(),
            old(sim).evolves_to(*sim),
            dispatched <= budget,
            count_invoked(sim.log@) == count_invoked(old(sim).log@) + dispatched,
            dispatched == 0 ==> (sim.stopped == old(sim).stopped && event_heap@.len() == n0),
            n0 == 0 ==> (*sim == *old(sim) && event_heap@.len() == 0),
            dispatched + event_heap@.len() >= n0 || dispatched == budget,
            events_sorted(event_heap@),
            forall|i: int|
                0 <= i < event_heap@.len() ==> handler_wf(
                    *sim,
                    (#[trigger] event_heap@[i]).handler,
                ),
            forall|i: int|
                0 <= i < event_heap@.len() ==> handler_tokens_before(
                    (#[trigger] event_heap@[i]).handler,
                    event_heap@[i].due_time,
                ),
            forall|i: int|
                0 <= i < event_heap@.len() ==> watermark <= (#[trigger] event_heap@[i]).due_time,
            forall|ri: int|
                0 <= ri < sim.resources@.len() ==> (#[trigger] sim.resources@[ri]).resource_timer_last_updated_real_time
                    <= watermark,
            forall|k: int| 0 <= k < sim.log@.len() ==> (#[trigger] sim.log@[k]).timestamp <= watermark,
            log_monotone(sim.log@),
            forall|i: int|
                old(sim).worker_token_duration@.len() <= i < sim.worker_token_duration@.len()
                    ==> (#[trigger] sim.worker_token_duration@[i]).ticks >= 1,
        decreases budget - dispatched,
    {
        let due = event_heap[0].due_time;
        proof {
            assert(event_heap@[0].due_time == due);
            assert(watermark <= due);
            watermark = due;
        }
        let mut batch: Vec<Handler> = Vec::new();
        let ghost heap0 = event_heap@;
        while event_heap.len() > 0 && event_heap[0].due_time == due
            invariant
                batch@.len() == 0 ==> event_heap@ == heap0,
                batch@.len() + event_heap@.len() == heap0.len(),
                events_sorted(event_heap@),
                forall|i: int|
                    0 <= i < event_heap@.len() ==> handler_wf(
                        *sim,
                        (#[trigger] event_heap@[i]).handler,
                    ),
                forall|i: int|
                    0 <= i < event_heap@.len() ==> handler_tokens_before(
                        (#[trigger] event_heap@[i]).handler,
                        event_heap@[i].due_time,
                    ),
                forall|i: int|
                    0 <= i < event_heap@.len() ==> due <= (#[trigger] event_heap@[i]).due_time,
                forall|i: int|
                    0 <= i < batch@.len() ==> handler_wf(*sim, #[trigger] batch@[i]),
                forall|i: int| 0 <= i < batch@.len() ==> handler_tokens_before(#[trigger] batch@[i], due),
            decreases event_heap@.len(),
        {
            let ghost hpre = event_heap@;
            let e = event_heap.remove(0);
            batch.push(e.handler);
            proof {
                hpre.remove_ensures(0);
                assert forall|i: int|
                    0 <= i < event_heap@.len() implies (handler_wf(
                    *sim,
                    (#[trigger] event_heap@[i]).handler,
                ) && handler_tokens_before(event_heap@[i].handler, event_heap@[i].due_time) && due
                    <= event_heap@[i].due_time && forall|j: int|
                    i <= j < event_heap@.len() ==> event_heap@[i].due_time
                        <= (#[trigger] event_heap@[j]).due_time) by {
                    assert(event_heap@[i] == hpre[i + 1]);
                    assert forall|j: int|
                        i <= j < event_heap@.len() implies event_heap@[i].due_time
                        <= (#[trigger] event_heap@[j]).due_time by {
                        assert(event_heap@[j] == hpre[j + 1]);
                    }
                }
            }
        }
        proof {
            assert(batch@.len() >= 1) by {
                if batch@.len() == 0 {
                    assert(event_heap@ == heap0);
                    assert(event_heap@[0].due_time == due);
                }
            }
        }
        let ghost batch_pre = batch@;
        shuffle(&mut batch, &mut simevent_rng);
        proof {
            batch_pre.to_multiset_ensures();
            batch@.to_multiset_ensures();
            assert forall|i: int|
                0 <= i < batch@.len() implies (handler_wf(*sim, #[trigger] batch@[i])
                    && handler_tokens_before(batch@[i], due)) by {
                assert(batch@.contains(batch@[i]));
                assert(batch@.to_multiset().count(batch@[i]) > 0);
                assert(batch_pre.contains(batch@[i]));
                let j = choose|j: int| 0 <= j < batch_pre.len() && batch_pre[j] == batch@[i];
                assert(handler_wf(*sim, batch_pre[j]));
            }
        }
        let ghost disp0 = dispatched;
        let ghost blen0 = batch@.len();
        while batch.len() > 0 && dispatched < budget
            invariant
                disp0 < budget,
                dispatched >= disp0,
                batch@.len() <= blen0,
                batch@.len() < blen0 ==> dispatched > disp0,
                dispatched + event_heap@.len() + batch@.len() >= n0 || dispatched == budget,
                count_invoked(sim.log@) == count_invoked(old(sim).log@) + dispatched,
                sim.wf(),
                old(sim).evolves_to(*sim),
                dispatched <= budget,
                events_sorted(event_heap@),
                forall|i: int|
                    0 <= i < event_heap@.len() ==> handler_wf(
                        *sim,
                        (#[trigger] event_heap@[i]).handler,
                    ),
                forall|i: int|
                    0 <= i < event_heap@.len() ==> handler_tokens_before(
                        (#[trigger] event_heap@[i]).handler,
                        event_heap@[i].due_time,
                    ),
                forall|i: int|
                    0 <= i < event_heap@.len() ==> due <= (#[trigger] event_heap@[i]).due_time,
                forall|i: int|
                    0 <= i < batch@.len() ==> handler_wf(*sim, #[trigger] batch@[i]),
                forall|i: int| 0 <= i < batch@.len() ==> handler_tokens_before(#[trigger] batch@[i], due),
                forall|ri: int|
                    0 <= ri < sim.resources@.len() ==> (#[trigger] sim.resources@[ri]).resource_timer_last_updated_real_time
                        <= due,
                forall|k: int| 0 <= k < sim.log@.len() ==> (#[trigger] sim.log@[k]).timestamp <= due,
                log_monotone(sim.log@),
                forall|i: int|
                    old(sim).worker_token_duration@.len() <= i < sim.worker_token_duration@.len()
                        ==> (#[trigger] sim.worker_token_duration@[i]).ticks >= 1,
            decreases budget - dispatched,
        {
            let ghost bpre = batch@;
            let h = batch.remove(0);
            proof {
                bpre.remove_ensures(0);
                assert(h == bpre[0]);
                assert(handler_wf(*sim, h));
                assert(handler_tokens_before(h, due));
                assert forall|i: int|
                    0 <= i < batch@.len() implies (handler_wf(*sim, #[trigger] batch@[i])
                        && handler_tokens_before(batch@[i], due)) by {
                    assert(batch@[i] == bpre[i + 1]);
                }
            }
            let ghost sdisp = *sim;
            let mut evs = dispatch(sim, sampler, h, due);
            dispatched = dispatched + 1;
            proof {
                lemma_evolves_trans(*old(sim), sdisp, *sim);
                lemma_log_monotone_extend(sdisp.log@, sim.log@, due);
                crate::simulation::lemma_prefix_index(
                    sdisp.worker_token_duration@,
                    sim.worker_token_duration@,
                );
                assert forall|i: int|
                    0 <= i < event_heap@.len() implies handler_wf(
                    *sim,
                    (#[trigger] event_heap@[i]).handler,
                ) by {
                    lemma_handler_wf_evolves(sdisp, *sim, event_heap@[i].handler);
                }
                assert forall|i: int| 0 <= i < batch@.len() implies handler_wf(
                    *sim,
                    #[trigger] batch@[i],
                ) by {
                    lemma_handler_wf_evolves(sdisp, *sim, batch@[i]);
                }
                assert forall|i: int|
                    old(sim).worker_token_duration@.len() <= i < sim.worker_token_duration@.len() implies (#[trigger] sim.worker_token_duration@[i]).ticks
                    >= 1 by {
                    if i < sdisp.worker_token_duration@.len() {
                        assert(sim.worker_token_duration@[i] == sdisp.worker_token_duration@[i]);
                    }
                }
            }
            while evs.len() > 0
                invariant
                    dispatched + event_heap@.len() + batch@.len() >= n0 || dispatched == budget,
                    events_sorted(event_heap@),
                    forall|i: int|
                        0 <= i < event_heap@.len() ==> handler_wf(
                            *sim,
                            (#[trigger] event_heap@[i]).handler,
                        ),
                    forall|i: int|
                        0 <= i < event_heap@.len() ==> handler_tokens_before(
                            (#[trigger] event_heap@[i]).handler,
                            event_heap@[i].due_time,
                        ),
                    forall|i: int|
                        0 <= i < event_heap@.len() ==> due <= (#[trigger] event_heap@[i]).due_time,
                    forall|i: int|
                        0 <= i < evs@.len() ==> handler_wf(*sim, (#[trigger] evs@[i]).handler),
                    forall|i: int|
                        0 <= i < evs@.len() ==> event_tokens_fresh(
                            #[trigger] evs@[i],
                            sim.workers@.len() as int,
                            due,
                        ),
                decreases evs@.len(),
            {
                let ghost epre = evs@;
                let ev = evs.remove(0);
                let ghost ev0 = ev;
                proof {
                    epre.remove_ensures(0);
                    assert(ev0 == epre[0]);
                    assert(handler_wf(*sim, ev0.handler));
                    assert(event_tokens_fresh(ev0, sim.workers@.len() as int, due));
                    assert forall|i: int|
                        0 <= i < evs@.len() implies (handler_wf(
                        *sim,
                        (#[trigger] evs@[i]).handler,
                    ) && event_tokens_fresh(evs@[i], sim.workers@.len() as int, due)) by {
                        assert(evs@[i] == epre[i + 1]);
                    }
                }
                let d = ev.due_time.sample(sampler, &mut schedule_rng);
                if due < u64::MAX {
                    let ghost hpre2 = event_heap@;
                    schedule_event(&mut event_heap, due, d, ev.handler);
                    proof {
                        let newe = ScheduledEvent { due_time: sat_add64(due, d), handler: ev0.handler };
                        assert(sat_add64(due, d) > due);
                        assert forall|i: int|
                            0 <= i < event_heap@.len() implies (handler_wf(
                            *sim,
                            (#[trigger] event_heap@[i]).handler,
                        ) && handler_tokens_before(
                            event_heap@[i].handler,
                            event_heap@[i].due_time,
                        ) && due <= event_heap@[i].due_time) by {
                            assert(event_heap@.contains(event_heap@[i]));
                            if event_heap@[i] == newe {
                                assert(handler_wf(*sim, newe.handler));
                                assert(event_tokens_fresh(ev0, sim.workers@.len() as int, due));
                            } else {
                                assert(hpre2.contains(event_heap@[i]));
                                let j = choose|j: int|
                                    0 <= j < hpre2.len() && hpre2[j] == event_heap@[i];
                            }
                        }
                    }
                }
            }
        }
    }
    event_heap.len()
}

} // verus!
