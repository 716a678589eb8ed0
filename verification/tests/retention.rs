use retention::cache::PolicyCache;
use retention::executor::Message;
use retention::executor::PermanentFailure;
use retention::executor::RetryableApiError;
use retention::executor::SweepExecution;
use retention::executor::SweepOutcome;
use retention::executor::select_eligible;
use retention::policy::Period;
use retention::policy::ValidationError;
use retention::scheduler::ChannelState;
use retention::scheduler::SweepDispatcher;
use retention::scheduler::SweepScheduler;
use retention::scheduler::SweepTask;
use retention::store::RetentionStore;

const DAY: u64 = 86400;

#[test]
fn period_units() {
    assert_eq!(Period::Sec.to_secs(), 1);
    assert_eq!(Period::Min.to_secs(), 60);
    assert_eq!(Period::Hours.to_secs(), 3600);
    assert_eq!(Period::Days.to_secs(), 86400);
}

#[test]
fn period_duration_thirty_days() {
    assert_eq!(Period::Days.duration(30), 30 * DAY);
    assert_eq!(Period::Min.duration(90), 5400);
}

#[test]
fn period_checked_duration_overflow() {
    assert_eq!(Period::Days.checked_duration(u64::MAX), None);
    assert_eq!(Period::Sec.checked_duration(u64::MAX), Some(u64::MAX));
}

#[test]
fn create_then_get_matches() {
    let mut store = RetentionStore::new();
    let r = store.create_or_update(42, 7, 30, Period::Days);
    assert!(r.is_ok());
    let p = store.get(42).expect("policy must exist after creation");
    assert_eq!(p.channel_id(), 42);
    assert_eq!(p.inactive_after(), 30 * DAY);
    assert_eq!(p.channel.guild_id, 7);
    assert_eq!(p.last_swept_at(), None);
}

#[test]
fn create_rejects_zero_duration() {
    let mut store = RetentionStore::new();
    let r = store.create_or_update(42, 7, 0, Period::Days);
    assert_eq!(r, Err(ValidationError::NonPositiveDuration));
    assert!(store.get(42).is_none());
}

#[test]
fn create_rejects_overflowing_duration() {
    let mut store = RetentionStore::new();
    let r = store.create_or_update(42, 7, u64::MAX, Period::Days);
    assert_eq!(r, Err(ValidationError::DurationOverflow));
    assert!(store.get(42).is_none());
}

#[test]
fn update_replaces_threshold_and_keeps_bookkeeping() {
    let mut store = RetentionStore::new();
    store.create_or_update(42, 7, 30, Period::Days).unwrap();
    store.record_swept(42, 1000);
    store.create_or_update(42, 7, 10, Period::Days).unwrap();
    let p = store.get(42).unwrap();
    assert_eq!(p.inactive_after(), 10 * DAY);
    assert_eq!(p.last_swept_at(), Some(1000));
}

#[test]
fn remove_deletes_policy() {
    let mut store = RetentionStore::new();
    store.create_or_update(42, 7, 30, Period::Days).unwrap();
    assert!(store.remove(42));
    assert!(store.get(42).is_none());
    assert!(!store.remove(42));
}

#[test]
fn record_swept_is_monotone() {
    let mut store = RetentionStore::new();
    store.create_or_update(42, 7, 30, Period::Days).unwrap();
    store.record_swept(42, 500);
    assert_eq!(store.get(42).unwrap().last_swept_at(), Some(500));
    store.record_swept(42, 400);
    assert_eq!(store.get(42).unwrap().last_swept_at(), Some(500));
    store.record_swept(42, 600);
    assert_eq!(store.get(42).unwrap().last_swept_at(), Some(600));
}

#[test]
fn deleted_policy_stays_deleted_mid_sweep() {
    // A sweep is in flight for channel 42 when its policy is deleted;
    // the completion's record_swept must not resurrect it.
    let mut store = RetentionStore::new();
    let mut cache = PolicyCache::new();
    let mut sched = SweepScheduler::new();
    store.create_or_update(42, 7, 30, Period::Days).unwrap();
    cache.refresh(&store);
    let tasks = sched.tick(100 * DAY, &cache.snapshot());
    assert_eq!(tasks.len(), 1);

    assert!(store.remove(42));

    let exec = SweepExecution::new(42, tasks[0].cutoff, 0, 3);
    let result = exec.complete();
    sched.complete(42, &result, 100 * DAY, &mut store);
    assert!(store.get(42).is_none());
    assert_eq!(store.list_all().len(), 0);
}

#[test]
fn cache_snapshot_reflects_store() {
    let mut store = RetentionStore::new();
    store.create_or_update(1, 7, 1, Period::Days).unwrap();
    store.create_or_update(2, 7, 2, Period::Days).unwrap();
    let mut cache = PolicyCache::new();
    assert_eq!(cache.snapshot().len(), 0);
    cache.refresh(&store);
    let snap = cache.snapshot();
    assert_eq!(snap.len(), 2);
    assert_eq!(snap[0].channel_id(), 1);
    assert_eq!(snap[1].channel_id(), 2);
    // A later store write is invisible until the next refresh.
    store.remove(1);
    assert_eq!(cache.snapshot().len(), 2);
    cache.refresh(&store);
    assert_eq!(cache.snapshot().len(), 1);
}

#[test]
fn thirty_day_policy_sweeps_at_thirty_one_days() {
    // Policy {channel 42, 30 days} created at T0; a tick at T0+31d must
    // produce cutoff T0+1d, delete exactly the messages older than that,
    // and record last_swept_at = T0+31d.
    let t0: u64 = 1_000_000;
    let mut store = RetentionStore::new();
    store.create_or_update(42, 7, 30, Period::Days).unwrap();
    let mut cache = PolicyCache::new();
    cache.refresh(&store);
    let mut sched = SweepScheduler::new();

    let now = t0 + 31 * DAY;
    let tasks = sched.tick(now, &cache.snapshot());
    assert_eq!(tasks.len(), 1);
    assert_eq!(tasks[0].channel_id, 42);
    assert_eq!(tasks[0].cutoff, t0 + DAY);

    let msgs = vec![
        Message { id: 1, timestamp: t0 },
        Message { id: 2, timestamp: t0 + DAY - 1 },
        Message { id: 3, timestamp: t0 + DAY },
        Message { id: 4, timestamp: now },
    ];
    let eligible = select_eligible(&msgs, tasks[0].cutoff);
    assert_eq!(
        eligible,
        vec![
            Message { id: 1, timestamp: t0 },
            Message { id: 2, timestamp: t0 + DAY - 1 },
        ]
    );

    let mut exec = SweepExecution::new(42, tasks[0].cutoff, 0, 3);
    exec.record_deleted(eligible.len() as u64);
    let result = exec.complete();
    assert_eq!(result.deleted_count, 2);
    sched.complete(42, &result, now, &mut store);
    assert_eq!(store.get(42).unwrap().last_swept_at(), Some(now));
    assert_eq!(sched.state_of(42), ChannelState::Idle);
}

#[test]
fn overlapping_tick_skips_sweeping_channel() {
    // Two ticks five minutes apart while the first sweep is still in
    // flight: the second observes Sweeping and dispatches nothing.
    let mut store = RetentionStore::new();
    store.create_or_update(42, 7, 30, Period::Days).unwrap();
    let mut cache = PolicyCache::new();
    cache.refresh(&store);
    let mut sched = SweepScheduler::new();

    let t1 = 100 * DAY;
    let first = sched.tick(t1, &cache.snapshot());
    assert_eq!(first.len(), 1);
    assert_eq!(sched.state_of(42), ChannelState::Sweeping);

    let t2 = t1 + 300;
    let second = sched.tick(t2, &cache.snapshot());
    assert_eq!(second.len(), 0);

    // Once the first sweep completes, the next tick dispatches again.
    let exec = SweepExecution::new(42, first[0].cutoff, 0, 3);
    sched.complete(42, &exec.complete(), t1, &mut store);
    assert_eq!(sched.state_of(42), ChannelState::Idle);
    let third = sched.tick(t2 + 300, &cache.snapshot());
    assert_eq!(third.len(), 1);
}

#[test]
fn eligibility_respects_cutoff_boundary() {
    let cutoff: u64 = 1000;
    let msgs = vec![
        Message { id: 1, timestamp: 999 },
        Message { id: 2, timestamp: 1000 },
        Message { id: 3, timestamp: 1001 },
        Message { id: 4, timestamp: 0 },
    ];
    let eligible = select_eligible(&msgs, cutoff);
    assert_eq!(
        eligible,
        vec![Message { id: 1, timestamp: 999 }, Message { id: 4, timestamp: 0 }]
    );
}

#[test]
fn pagination_boundary_loses_nothing() {
    // The same messages split into pages at different points select the
    // same eligible messages, in order.
    let all = vec![
        Message { id: 1, timestamp: 10 },
        Message { id: 2, timestamp: 500 },
        Message { id: 3, timestamp: 20 },
        Message { id: 4, timestamp: 30 },
    ];
    let whole = select_eligible(&all, 100);
    let page_a = vec![all[0], all[1]];
    let page_b = vec![all[2], all[3]];
    let mut paged = select_eligible(&page_a, 100);
    paged.extend(select_eligible(&page_b, 100));
    assert_eq!(whole, paged);
    assert_eq!(whole.len(), 3);
}

#[test]
fn plan_page_splits_bulk_and_single() {
    // Bulk deletion only reaches messages at or after the bulk window's
    // start; older eligible messages must be planned singly, not skipped.
    let exec = SweepExecution::new(42, 1000, 200, 3);
    let msgs = vec![
        Message { id: 1, timestamp: 100 },
        Message { id: 2, timestamp: 300 },
        Message { id: 3, timestamp: 1500 },
        Message { id: 4, timestamp: 199 },
        Message { id: 5, timestamp: 200 },
    ];
    let plan = exec.plan_page(&msgs);
    assert_eq!(
        plan.bulk,
        vec![Message { id: 2, timestamp: 300 }, Message { id: 5, timestamp: 200 }]
    );
    assert_eq!(
        plan.single,
        vec![Message { id: 1, timestamp: 100 }, Message { id: 4, timestamp: 199 }]
    );
}

#[test]
fn rate_limit_retries_are_bounded() {
    let mut exec = SweepExecution::new(42, 1000, 0, 2);
    exec.record_deleted(5);
    assert!(exec.on_rate_limit().is_none());
    assert!(exec.on_rate_limit().is_none());
    let aborted = exec.on_rate_limit().expect("third rate limit must abort");
    assert_eq!(
        aborted.outcome,
        SweepOutcome::Retryable(RetryableApiError::RateLimitExceeded)
    );
    assert_eq!(aborted.deleted_count, 5);
    // Exhaustion is stable: asking again aborts again, it never crashes.
    assert!(exec.on_rate_limit().is_some());
}

#[test]
fn sweep_budget_times_out() {
    let mut exec = SweepExecution::new(42, 1000, 0, 3);
    exec.record_deleted(3);
    // Exactly at the budget the sweep may go on; past it, it aborts.
    assert!(exec.check_budget(100, 160, 60).is_none());
    let aborted = exec.check_budget(100, 161, 60).expect("budget exceeded");
    assert_eq!(
        aborted.outcome,
        SweepOutcome::Retryable(RetryableApiError::Timeout)
    );
    assert_eq!(aborted.deleted_count, 3);
    // A clock reading behind the start never aborts.
    assert!(exec.check_budget(100, 50, 60).is_none());
}

#[test]
fn partial_failure_reports_deleted_count() {
    let mut exec = SweepExecution::new(42, 1000, 0, 3);
    exec.record_deleted(7);
    let r = exec.fail(SweepOutcome::Permanent(PermanentFailure::PermissionDenied));
    assert_eq!(r.deleted_count, 7);
    assert_eq!(
        r.outcome,
        SweepOutcome::Permanent(PermanentFailure::PermissionDenied)
    );
}

#[test]
fn permanent_failure_leaves_last_swept_unchanged() {
    let mut store = RetentionStore::new();
    store.create_or_update(42, 7, 30, Period::Days).unwrap();
    store.record_swept(42, 1000);
    let mut cache = PolicyCache::new();
    cache.refresh(&store);
    let mut sched = SweepScheduler::new();
    let tasks = sched.tick(100 * DAY, &cache.snapshot());
    let exec = SweepExecution::new(42, tasks[0].cutoff, 0, 3);
    let r = exec.fail(SweepOutcome::Permanent(PermanentFailure::ChannelDeleted));
    sched.complete(42, &r, 100 * DAY, &mut store);
    // The policy stays in place so the operator can observe the failure.
    let p = store.get(42).unwrap();
    assert_eq!(p.last_swept_at(), Some(1000));
    assert_eq!(sched.state_of(42), ChannelState::Idle);
}

#[test]
fn retryable_failure_advances_attempt_count() {
    let mut store = RetentionStore::new();
    store.create_or_update(42, 7, 30, Period::Days).unwrap();
    let mut cache = PolicyCache::new();
    cache.refresh(&store);
    let mut sched = SweepScheduler::new();

    let t1 = 100 * DAY;
    let first = sched.tick(t1, &cache.snapshot());
    assert_eq!(first[0].attempt, 0);
    let exec = SweepExecution::new(42, first[0].cutoff, 0, 3);
    let r = exec.fail(SweepOutcome::Retryable(RetryableApiError::Timeout));
    sched.complete(42, &r, t1, &mut store);
    assert_eq!(store.get(42).unwrap().last_swept_at(), None);

    let second = sched.tick(t1 + 600, &cache.snapshot());
    assert_eq!(second[0].attempt, 1);
    let exec2 = SweepExecution::new(42, second[0].cutoff, 0, 3);
    sched.complete(42, &exec2.complete(), t1 + 600, &mut store);

    let third = sched.tick(t1 + 1200, &cache.snapshot());
    assert_eq!(third[0].attempt, 0);
}

#[test]
fn cutoff_clamps_at_epoch() {
    let mut store = RetentionStore::new();
    store.create_or_update(42, 7, 30, Period::Days).unwrap();
    let p = store.get(42).unwrap();
    assert_eq!(p.cutoff(10), 0);
    assert_eq!(p.cutoff(30 * DAY), 0);
    assert_eq!(p.cutoff(30 * DAY + 5), 5);
}

#[test]
fn dispatcher_caps_concurrency_and_queues() {
    let mut pool = SweepDispatcher::new(2);
    let t = |id: u64| SweepTask { channel_id: id, cutoff: 0, attempt: 0 };
    assert!(pool.submit(t(1)));
    assert!(pool.submit(t(2)));
    assert!(!pool.submit(t(3)));
    assert!(!pool.submit(t(4)));
    // Finished workers drain the queue in arrival order.
    assert_eq!(pool.on_finished(), Some(t(3)));
    assert_eq!(pool.on_finished(), Some(t(4)));
    assert_eq!(pool.on_finished(), None);
    assert!(pool.submit(t(5)));
}

#[test]
fn tick_dispatches_each_idle_channel_once() {
    let mut store = RetentionStore::new();
    store.create_or_update(1, 7, 1, Period::Days).unwrap();
    store.create_or_update(2, 7, 2, Period::Days).unwrap();
    store.create_or_update(3, 7, 3, Period::Days).unwrap();
    let mut cache = PolicyCache::new();
    cache.refresh(&store);
    let mut sched = SweepScheduler::new();

    let tasks = sched.tick(10 * DAY, &cache.snapshot());
    assert_eq!(tasks.len(), 3);
    let mut ids: Vec<u64> = tasks.iter().map(|t| t.channel_id).collect();
    ids.sort();
    assert_eq!(ids, vec![1, 2, 3]);
    assert_eq!(tasks[0].cutoff, 10 * DAY - DAY);
    assert_eq!(tasks[1].cutoff, 10 * DAY - 2 * DAY);
    assert_eq!(tasks[2].cutoff, 10 * DAY - 3 * DAY);
}

#[test]
fn deleted_count_saturates() {
    let mut exec = SweepExecution::new(42, 1000, 0, 3);
    exec.record_deleted(u64::MAX - 1);
    exec.record_deleted(5);
    assert_eq!(exec.deleted(), u64::MAX);
}
