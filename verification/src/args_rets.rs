use vstd::prelude::*;

use crate::queue::{Work, WorkerToken};
use crate::shared_rate_resource::TenancyWork;
use crate::status::Status;

verus! {

/// A lognormal delay distribution over tick counts, described by its mean in
/// ticks and its coefficient of variation in hundredths. A coefficient of
/// zero makes the delay deterministic: exactly the mean.
#[derive(Clone, Copy, Debug, PartialEq, Eq, Structural)]
pub struct DelayDistribution {
    pub mean_ticks: u64,
    pub cv_hundredths: u32,
}

/// Draws tick delays from lognormal distributions. The simulation engine
/// consults the sampler only for jittered delays (coefficient of variation
/// above zero); deterministic delays are computed by the engine itself.
/// The application supplies an implementation backed by a lognormal sampler;
/// `MeanSampler` is a deterministic stand-in.
pub trait DelaySampler {
    fn sample_lognormal_ticks(
        &mut self,
        mean_ticks: u64,
        cv_hundredths: u32,
        rng: &mut rand_xoshiro::Xoshiro256StarStar,
    ) -> u64;
}

/// A sampler that ignores the jitter and always returns the mean: every
/// distribution behaves as if its coefficient of variation were zero.
pub struct MeanSampler {}

impl DelaySampler for MeanSampler {
    fn sample_lognormal_ticks(
        &mut self,
        mean_ticks: u64,
        _cv_hundredths: u32,
        _rng: &mut rand_xoshiro::Xoshiro256StarStar,
    ) -> u64 {
        mean_ticks
    }
}

impl DelayDistribution {
    /// The delay a zero-jitter distribution always yields: the mean, clamped
    /// up to one tick.
    pub open spec fn deterministic_delay(self) -> u64 {
        if self.mean_ticks == 0 {
            1u64
        } else {
            self.mean_ticks
        }
    }

    /// Sample a tick delay. Every sampled delay is clamped to at least one
    /// tick; a distribution with zero coefficient of variation is
    /// deterministic.
    pub fn sample<S: DelaySampler>(
        &self,
        sampler: &mut S,
        rng: &mut rand_xoshiro::Xoshiro256StarStar,
    ) -> (d: u64)
        ensures
            d >= 1,
            self.cv_hundredths == 0 ==> d == self.deterministic_delay(),
    {
        if self.cv_hundredths == 0 {
            if self.mean_ticks == 0 {
                1
            } else {
                self.mean_ticks
            }
        } else {
            let mean: u64 = if self.mean_ticks == 0 {
                1
            } else {
                self.mean_ticks
            };
            let drawn = sampler.sample_lognormal_ticks(mean, self.cv_hundredths, rng);
            if drawn == 0 {
                1
            } else {
                drawn
            }
        }
    }
}

/// What an event handler does when its event comes due. Handlers are plain
/// data; `dispatch` in `main_loop` interprets them against the simulation
/// state.
pub enum Handler {
    /// Append an observation to the simulation log, and propose this handler
    /// again `remaining` more times.
    Repeat { remaining: u32, due_time: DelayDistribution, tag: u64 },
    /// Append an observation to the simulation log.
    Record { tag: u64 },
    /// Ask the run loop to stop: the end-of-simulation collaborator.
    Stop,
    /// Snapshot the metric counters and propose the next collection.
    MetricCollection,
    /// Write a status cell: an outside observer requesting shutdown.
    SetStatus { cell: usize, to: Status },
    /// Offer `work` to a queue: dispatch it to a listening worker if the
    /// queue is idle, otherwise append it to the queue's deque.
    Enqueued { queue: usize, work: Work },
    /// Restore checked-out workers: observe each token's duration and let its
    /// worker listen again.
    RestoreTokens { tokens: Vec<WorkerToken>, tag: u64 },
    /// Add a tenancy to a shared-rate resource and propose its wakeup.
    SharedRate { resource: usize, required: DelayDistribution, tenancy: TenancyWork },
    /// A shared-rate resource wakeup: run the tenancies that come due now.
    Wakeup { resource: usize },
}

/// An event a handler proposes: a delay distribution paired with the handler
/// to run once the sampled delay elapses.
pub struct ProposedEvent {
    pub due_time: DelayDistribution,
    pub handler: Handler,
}

/// Any token a proposed event carries was checked out at `ts` against a
/// worker that exists among the first `nworkers` arena slots. Freshly
/// proposed restore events satisfy this, which is what lets the scheduler
/// show that a token is never restored in the tick it was issued.
pub open spec fn event_tokens_fresh(e: ProposedEvent, nworkers: int, ts: u64) -> bool {
    match e.handler {
        Handler::RestoreTokens { tokens, tag } => forall|i: int|
            0 <= i < tokens@.len() ==> ((#[trigger] tokens@[i]).checkout_timestamp == ts && (
            tokens@[i].worker as int) < nworkers),
        _ => true,
    }
}

} // verus!
