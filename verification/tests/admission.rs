use std::time::{Duration, Instant};

use apex::admission::{
    resident_bytes, resident_pages, tokens_gained, AdmissionController, AdmissionDecision,
    RateLimiter,
};

fn ctrl(rss_limit: u64, depth_limit: usize) -> AdmissionController {
    AdmissionController::new(rss_limit, depth_limit)
}

fn with_depth(mut controller: AdmissionController, depth: usize) -> AdmissionController {
    for _ in 0..depth {
        controller.incr_queue();
    }
    controller
}

#[test]
fn admits_when_both_signals_under_limit() {
    let mut c = ctrl(1000, 10);
    c.record_sample(Some(500));
    let c = with_depth(c, 5);
    assert!(matches!(c.check(), AdmissionDecision::Admit));
}

#[test]
fn rejects_memory_when_rss_over_limit() {
    let mut c = ctrl(1000, 10);
    c.record_sample(Some(1001));
    match c.check() {
        AdmissionDecision::RejectMemory { rss, limit } => {
            assert_eq!(rss, 1001);
            assert_eq!(limit, 1000);
        }
        other => panic!("expected RejectMemory, got {other:?}"),
    }
}

#[test]
fn rejects_queue_when_depth_over_limit() {
    let c = with_depth(ctrl(1000, 10), 11);
    match c.check() {
        AdmissionDecision::RejectQueueDepth { depth, limit } => {
            assert_eq!(depth, 11);
            assert_eq!(limit, 10);
        }
        other => panic!("expected RejectQueueDepth, got {other:?}"),
    }
}

#[test]
fn memory_check_runs_before_queue_check() {
    let mut c = ctrl(1000, 10);
    c.record_sample(Some(1001));
    let c = with_depth(c, 11);
    assert!(matches!(c.check(), AdmissionDecision::RejectMemory { .. }));
}

#[test]
fn queue_depth_counter_increments_and_decrements() {
    let mut c = ctrl(1000, 100);
    for _ in 0..10 {
        c.incr_queue();
    }
    assert_eq!(c.queue_depth(), 10);
    c.decr_queue(4);
    assert_eq!(c.queue_depth(), 6);
}

#[test]
fn rate_limiter_grants_initial_burst_then_refuses() {
    let mut rl = RateLimiter::new(3);
    assert!(rl.allow());
    assert!(rl.allow());
    assert!(rl.allow());
    assert!(!rl.allow());
}

#[test]
fn rate_limiter_refills_over_time() {
    let mut rl = RateLimiter::new(10);
    for _ in 0..10 {
        assert!(rl.allow());
    }
    assert!(!rl.allow());
    let start = Instant::now();
    while start.elapsed() < Duration::from_millis(250) {}
    assert!(rl.allow(), "should have refilled after 250 ms at 10/sec");
}

#[test]
fn decision_helpers() {
    assert_eq!(AdmissionDecision::Admit.reason_label(), "admit");
    assert_eq!(
        AdmissionDecision::RejectMemory { rss: 0, limit: 0 }.reason_label(),
        "reject_memory"
    );
    assert!(AdmissionDecision::Admit.is_admit());
    assert!(!AdmissionDecision::RejectMemory { rss: 0, limit: 0 }.is_admit());
}

#[test]
fn queue_rejection_has_its_own_label_and_message() {
    let queue = AdmissionDecision::RejectQueueDepth { depth: 2, limit: 1 };
    assert_eq!(queue.reason_label(), "reject_queue_depth");
    assert_eq!(queue.reject_message(), "queue depth limit");
    assert_eq!(AdmissionDecision::RejectMemory { rss: 2, limit: 1 }.reject_message(), "memory limit");
    assert_eq!(AdmissionDecision::Admit.reject_message(), "ok");
    assert!(!queue.is_admit());
}

#[test]
fn values_at_their_limits_are_admitted() {
    let mut c = ctrl(1000, 10);
    c.record_sample(Some(1000));
    let c = with_depth(c, 10);
    assert!(c.check().is_admit());
}

#[test]
fn failed_sample_keeps_the_last_reading() {
    let mut c = ctrl(1000, 10);
    assert_eq!(c.rss(), 0);
    c.record_sample(Some(700));
    c.record_sample(None);
    assert_eq!(c.rss(), 700);
}

#[test]
fn request_that_came_and_went_leaves_the_depth() {
    let mut c = with_depth(ctrl(1000, 10), 3);
    assert_eq!(c.incr_queue(), 4);
    assert_eq!(c.decr_queue(1), 3);
}

#[test]
fn limiter_refills_by_whole_tokens() {
    let now = Instant::now();
    let mut rl = RateLimiter::new(10);
    for _ in 0..10 {
        assert!(rl.allow_after(0, now));
    }
    assert!(!rl.allow_after(99_999_999, now));
    assert!(rl.allow_after(100_000_000, now));
    assert!(!rl.allow_after(0, now));
    assert!(rl.allow_after(250_000_000, now));
    assert!(rl.allow_after(0, now));
    assert!(!rl.allow_after(0, now));
}

fn floating_gain(rate: u32, elapsed: Duration) -> u32 {
    (elapsed.as_secs_f64() * rate as f64) as u32
}

#[test]
fn tokens_are_gained_as_floating_point_counts_them() {
    assert_eq!(tokens_gained(100, 290_000_000), 28);
    assert_eq!(tokens_gained(100, 300_000_000), 30);
    assert_eq!(tokens_gained(10, 300_000_000), 3);
    assert_eq!(tokens_gained(10, 700_000_000), 7);
    assert_eq!(tokens_gained(10, 0), 0);
    assert_eq!(tokens_gained(0, 1_000_000_000), 0);
    assert_eq!(tokens_gained(1, u128::MAX), u32::MAX);
    let rates: [u32; 12] =
        [0, 1, 3, 7, 10, 100, 999, 1000, 65_537, 1_000_003, u32::MAX - 1, u32::MAX];
    let mut seed: u64 = 0x9e37_79b9_7f4a_7c15;
    for round in 0..40_000u32 {
        seed ^= seed << 13;
        seed ^= seed >> 7;
        seed ^= seed << 17;
        let secs = match round % 5 {
            0 => 0,
            1 => seed % 3,
            2 => seed % 1_000_000,
            3 => seed % (1 << 40),
            _ => seed,
        };
        let nanos = match round % 3 {
            0 => (seed >> 20) % 100 * 10_000_000,
            1 => (seed >> 11) % 1_000_000_000,
            _ => (seed >> 5) % 10,
        };
        let elapsed = Duration::new(secs, nanos as u32);
        for rate in rates {
            assert_eq!(
                tokens_gained(rate, elapsed.as_nanos()),
                floating_gain(rate, elapsed),
                "rate {rate}, elapsed {elapsed:?}"
            );
        }
    }
}

#[test]
fn whole_hundredths_are_gained_as_floating_point_counts_them() {
    for hundredths in 0..1000u64 {
        let elapsed = Duration::from_millis(hundredths * 10);
        for rate in 0..=1000u32 {
            assert_eq!(
                tokens_gained(rate, elapsed.as_nanos()),
                floating_gain(rate, elapsed),
                "rate {rate}, elapsed {elapsed:?}"
            );
        }
    }
}

#[test]
fn limiter_never_holds_more_than_its_capacity() {
    let now = Instant::now();
    let mut rl = RateLimiter::new(2);
    assert!(rl.allow_after(3_600_000_000_000, now));
    assert!(rl.allow_after(0, now));
    assert!(!rl.allow_after(0, now));
    assert!(rl.allow_after(u128::MAX, now));
    assert!(rl.allow_after(0, now));
    assert!(!rl.allow_after(0, now));
}

#[test]
fn limiter_without_a_rate_refuses_everything() {
    let now = Instant::now();
    let mut rl = RateLimiter::new(0);
    assert!(!rl.allow_after(1_000_000_000, now));
}

#[test]
fn rejections_are_logged_as_often_as_the_limiter_permits() {
    let now = Instant::now();
    let mut c = ctrl(1000, 10);
    let rejection = AdmissionDecision::RejectMemory { rss: 1001, limit: 1000 };
    assert!(!c.maybe_log_rejection_after(&AdmissionDecision::Admit, 0, now));
    for _ in 0..10 {
        assert!(c.maybe_log_rejection_after(&rejection, 0, now));
    }
    assert!(!c.maybe_log_rejection_after(&rejection, 0, now));
    assert!(c.maybe_log_rejection_after(&rejection, 100_000_000, now));
}

#[test]
fn burst_after_idle_time_spends_what_the_time_brought() {
    let now = Instant::now();
    let mut rl = RateLimiter::new(100);
    for _ in 0..100 {
        assert!(rl.allow_after(0, now));
    }
    let mut allowed = vec![rl.allow_after(290_000_000, now)];
    for _ in 0..40 {
        allowed.push(rl.allow_after(0, now));
    }
    let expected: Vec<bool> = (0..41).map(|i| i < 28).collect();
    assert_eq!(allowed, expected);
}

#[test]
fn admissions_take_no_token_of_the_log() {
    let now = Instant::now();
    let mut c = ctrl(1000, 10);
    c.record_sample(Some(5));
    let rejection = AdmissionDecision::RejectMemory { rss: 1001, limit: 1000 };
    let mut logged = 0;
    for _ in 0..15 {
        assert!(!c.maybe_log_rejection_after(&AdmissionDecision::Admit, 0, now));
        if c.maybe_log_rejection_after(&rejection, 0, now) {
            logged += 1;
        }
    }
    assert_eq!(logged, 10);
    assert_eq!(c.rss(), 5);
    assert_eq!(c.queue_depth(), 0);
}

#[test]
fn an_admission_is_never_logged() {
    let mut c = ctrl(1000, 10);
    assert!(!c.maybe_log_rejection(&AdmissionDecision::Admit));
    assert!(c.maybe_log_rejection(&AdmissionDecision::RejectQueueDepth { depth: 11, limit: 10 }));
}

#[test]
fn second_field_of_statm_is_the_resident_set() {
    assert_eq!(resident_pages("35064 1871 1390 7 0 412 0\n"), Ok(1871));
    assert_eq!(resident_pages("  1\t+2  3"), Ok(2));
    assert_eq!(resident_pages("35064"), Err("malformed /proc/self/statm".to_string()));
    assert_eq!(resident_pages("35064 many"), Err("malformed /proc/self/statm".to_string()));
    assert_eq!(resident_pages(""), Err("malformed /proc/self/statm".to_string()));
    assert_eq!(resident_pages("1 18446744073709551615"), Ok(u64::MAX));
    assert!(resident_pages("1 18446744073709551616").is_err());
}

#[test]
fn resident_set_is_pages_times_page_size() {
    assert_eq!(resident_bytes(1871, 4096), Some(7_663_616));
    assert_eq!(resident_bytes(u64::MAX, 2), None);
}
