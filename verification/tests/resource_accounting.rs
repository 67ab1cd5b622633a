use poolsim::args_rets::{DelayDistribution, MeanSampler};
use poolsim::rng::rng_from_seed;
use poolsim::shared_rate_resource::{SharedRateResource, TenancyWork};

fn delay(mean_ticks: u64) -> DelayDistribution {
    DelayDistribution {
        mean_ticks,
        cv_hundredths: 0,
    }
}

#[test]
fn tenancy_due_is_timer_plus_required_time() {
    let mut r = SharedRateResource::new(0, 2, rng_from_seed(1));
    let mut sampler = MeanSampler {};
    let due = r.add_tenancy(0, delay(1000), TenancyWork { tag: 1 }, &mut sampler);
    assert_eq!(due, 1000);
    assert_eq!(r.tenancies.len(), 1);
    assert_eq!(r.tenancies[0].due_timer_time, 1000);
}

#[test]
fn next_wakeup_accounts_for_oversubscription() {
    let mut r = SharedRateResource::new(0, 2, rng_from_seed(1));
    let mut sampler = MeanSampler {};
    for tag in [1u64, 2, 3] {
        r.add_tenancy(0, delay(1000), TenancyWork { tag }, &mut sampler);
    }
    // three tenants share two partitions: rate 2/3, so 1000 timer ticks
    // take 1500 real ticks
    assert_eq!(r.get_next_wakeup_time(), Some(1500));
}

#[test]
fn next_wakeup_at_full_rate() {
    let mut r = SharedRateResource::new(0, 4, rng_from_seed(1));
    let mut sampler = MeanSampler {};
    r.add_tenancy(0, delay(700), TenancyWork { tag: 1 }, &mut sampler);
    r.add_tenancy(0, delay(900), TenancyWork { tag: 2 }, &mut sampler);
    // two tenants on four partitions run at rate one
    assert_eq!(r.get_next_wakeup_time(), Some(700));
}

#[test]
fn timer_advance_stays_below_earliest_due() {
    let mut r = SharedRateResource::new(0, 1, rng_from_seed(1));
    let mut sampler = MeanSampler {};
    r.add_tenancy(0, delay(1000), TenancyWork { tag: 1 }, &mut sampler);
    r.update_resource_timer(500);
    assert_eq!(r.resource_timer, 500);
    assert_eq!(r.utilization_counter, 500);
    assert_eq!(r.load_counter, 500);
    // even an update far past the predicted wakeup keeps the timer
    // strictly below the earliest due timer time
    r.update_resource_timer(10_000);
    assert!(r.resource_timer < r.tenancies[0].due_timer_time);
    assert_eq!(r.resource_timer, 999);
}

#[test]
fn oversubscribed_advance_rounds_toward_zero() {
    let mut r = SharedRateResource::new(0, 2, rng_from_seed(1));
    let mut sampler = MeanSampler {};
    for tag in [1u64, 2, 3] {
        r.add_tenancy(0, delay(1000), TenancyWork { tag }, &mut sampler);
    }
    r.update_resource_timer(7);
    // 7 real ticks at rate 2/3 earn floor(14 / 3) = 4 timer ticks
    assert_eq!(r.resource_timer, 4);
    // min(partitions, tenants) * delta and tenants * delta
    assert_eq!(r.utilization_counter, 14);
    assert_eq!(r.load_counter, 21);
}

#[test]
fn wakeup_memo_suppresses_duplicates() {
    let mut r = SharedRateResource::new(0, 1, rng_from_seed(1));
    let mut sampler = MeanSampler {};
    r.add_tenancy(0, delay(1000), TenancyWork { tag: 1 }, &mut sampler);
    let first = r.maybe_generate_wakeup_event(0, 0).unwrap();
    assert_eq!(first.len(), 1);
    assert_eq!(first[0].due_time.mean_ticks, 1000);
    assert_eq!(first[0].due_time.cv_hundredths, 0);
    let second = r.maybe_generate_wakeup_event(0, 0).unwrap();
    assert_eq!(second.len(), 0);
}

#[test]
fn idle_resource_generates_no_wakeup() {
    let mut r = SharedRateResource::new(0, 1, rng_from_seed(1));
    assert!(r.maybe_generate_wakeup_event(0, 0).is_none());
}

#[test]
fn quiescent_timer_resets_after_grace() {
    let mut r = SharedRateResource::new(0, 1, rng_from_seed(1));
    let mut sampler = MeanSampler {};
    r.add_tenancy(0, delay(300_000), TenancyWork { tag: 1 }, &mut sampler);
    r.update_resource_timer(200_000);
    assert_eq!(r.resource_timer, 200_000);
    let t = r.pop_front_tenancy();
    assert_eq!(t.due_timer_time, 300_000);
    // above the reset floor of 120 seconds worth of ticks: counters clear
    r.update_resource_timer(200_001);
    assert_eq!(r.resource_timer, 0);
    assert_eq!(r.utilization_counter, 0);
    assert_eq!(r.load_counter, 0);
}

#[test]
fn sampled_delay_is_clamped_to_one_tick() {
    let d = DelayDistribution {
        mean_ticks: 0,
        cv_hundredths: 0,
    };
    let mut sampler = MeanSampler {};
    let mut rng = rng_from_seed(0);
    assert_eq!(d.sample(&mut sampler, &mut rng), 1);
    let d5 = delay(5);
    assert_eq!(d5.sample(&mut sampler, &mut rng), 5);
}
