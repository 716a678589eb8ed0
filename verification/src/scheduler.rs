//! The sweep scheduler: per-channel sweep state and tick dispatch.
//!
//! Each tracked channel is a small state machine, `Idle` or `Sweeping`,
//! keyed by channel. A tick dispatches one sweep task per idle channel of
//! the snapshot and skips channels still sweeping from an earlier tick, so
//! sweeps of one channel never overlap. A bounded dispatcher caps how many
//! sweeps run at once and queues the rest.

use vstd::prelude::*;

use crate::executor::SweepOutcome;
use crate::executor::SweepResult;
use crate::policy::RetentionPolicy;
use crate::store::RetentionStore;
use crate::store::record_swept_result;
use crate::store::unique_channels;

verus! {

/// Sweep state of one channel.
#[derive(Clone, Copy, PartialEq, Eq, Structural, Debug)]
pub enum ChannelState {
    Idle,
    Sweeping,
}

/// One unit of dispatched work: sweep `channel_id`, deleting messages
/// strictly older than `cutoff`. `attempt` counts consecutive retryable
/// failures of earlier ticks for this channel.
#[derive(Clone, Copy, PartialEq, Eq, Structural, Debug)]
pub struct SweepTask {
    pub channel_id: u64,
    pub cutoff: u64,
    pub attempt: u64,
}

/// Tracked state of one channel.
#[derive(Clone, Copy, PartialEq, Eq, Structural, Debug)]
pub struct ChannelEntry {
    pub channel_id: u64,
    pub state: ChannelState,
    pub attempts: u64,
}

/// No two entries track the same channel.
pub open spec fn unique_entries(s: Seq<ChannelEntry>) -> bool {
    forall|i: int, j: int| 0 <= i < j < s.len() ==> s[i].channel_id != s[j].channel_id
}

/// The tracked entry for `channel_id`, if any.
pub open spec fn get_entry(s: Seq<ChannelEntry>, channel_id: u64) -> Option<ChannelEntry>
    decreases s.len(),
{
    if s.len() == 0 {
        None
    } else if s.last().channel_id == channel_id {
        Some(s.last())
    } else {
        get_entry(s.drop_last(), channel_id)
    }
}

/// The entries with every one for `channel_id` taken out, order kept.
pub open spec fn remove_entry(s: Seq<ChannelEntry>, channel_id: u64) -> Seq<ChannelEntry>
    decreases s.len(),
{
    if s.len() == 0 {
        s
    } else if s.last().channel_id == channel_id {
        remove_entry(s.drop_last(), channel_id)
    } else {
        remove_entry(s.drop_last(), channel_id).push(s.last())
    }
}

/// Whether a sweep for `channel_id` is in flight.
pub open spec fn is_sweeping(s: Seq<ChannelEntry>, channel_id: u64) -> bool {
    match get_entry(s, channel_id) {
        Some(e) => e.state is Sweeping,
        None => false,
    }
}

/// Consecutive retryable failures recorded for `channel_id`.
pub open spec fn attempts_of(s: Seq<ChannelEntry>, channel_id: u64) -> u64 {
    match get_entry(s, channel_id) {
        Some(e) => e.attempts,
        None => 0,
    }
}

/// The entries after `channel_id` transitions to `Sweeping`; its failure
/// count is kept, and an untracked channel starts at zero.
pub open spec fn mark_sweeping(s: Seq<ChannelEntry>, channel_id: u64) -> Seq<ChannelEntry> {
    match get_entry(s, channel_id) {
        Some(e) => remove_entry(s, channel_id).push(
            ChannelEntry { channel_id, state: ChannelState::Sweeping, attempts: e.attempts },
        ),
        None => s.push(
            ChannelEntry { channel_id, state: ChannelState::Sweeping, attempts: 0 },
        ),
    }
}

pub open spec fn saturating_inc(n: u64) -> u64 {
    if n == u64::MAX {
        n
    } else {
        (n + 1) as u64
    }
}

/// The entries after the sweep for `channel_id` ends: back to `Idle`,
/// with the failure count advanced on a retryable failure and cleared
/// otherwise.
pub open spec fn settle_entries(
    s: Seq<ChannelEntry>,
    channel_id: u64,
    retryable: bool,
) -> Seq<ChannelEntry> {
    match get_entry(s, channel_id) {
        Some(e) => remove_entry(s, channel_id).push(
            ChannelEntry {
                channel_id,
                state: ChannelState::Idle,
                attempts: if retryable {
                    saturating_inc(e.attempts)
                } else {
                    0
                },
            },
        ),
        None => s,
    }
}

/// The task a tick at `now` dispatches for policy `p`, given the tracked
/// entries at dispatch time.
pub open spec fn task_of(s: Seq<ChannelEntry>, now: u64, p: RetentionPolicy) -> SweepTask {
    SweepTask {
        channel_id: p.spec_channel_id(),
        cutoff: p.spec_cutoff(now),
        attempt: attempts_of(s, p.spec_channel_id()),
    }
}

/// Tracked entries after a tick at `now` over `snap`: every idle or
/// untracked snapshot channel transitions to `Sweeping`; channels already
/// sweeping are left alone.
pub open spec fn tick_entries(
    s: Seq<ChannelEntry>,
    snap: Seq<RetentionPolicy>,
    now: u64,
) -> Seq<ChannelEntry>
    decreases snap.len(),
{
    if snap.len() == 0 {
        s
    } else {
        let prev = tick_entries(s, snap.drop_last(), now);
        let p = snap.last();
        if is_sweeping(prev, p.spec_channel_id()) {
            prev
        } else {
            mark_sweeping(prev, p.spec_channel_id())
        }
    }
}

/// The tasks a tick at `now` dispatches over `snap`, in snapshot order:
/// one per channel not already sweeping, none for the rest.
pub open spec fn tick_tasks(
    s: Seq<ChannelEntry>,
    snap: Seq<RetentionPolicy>,
    now: u64,
) -> Seq<SweepTask>
    decreases snap.len(),
{
    if snap.len() == 0 {
        Seq::empty()
    } else {
        let prev = tick_entries(s, snap.drop_last(), now);
        let rest = tick_tasks(s, snap.drop_last(), now);
        let p = snap.last();
        if is_sweeping(prev, p.spec_channel_id()) {
            rest
        } else {
            rest.push(task_of(prev, now, p))
        }
    }
}

proof fn lemma_entry_remove_absent(s: Seq<ChannelEntry>, channel_id: u64)
    requires
        forall|i: int| 0 <= i < s.len() ==> (#[trigger] s[i]).channel_id != channel_id,
    ensures
        remove_entry(s, channel_id) == s,
    decreases s.len(),
{
    if s.len() > 0 {
        lemma_entry_remove_absent(s.drop_last(), channel_id);
        assert(remove_entry(s, channel_id) =~= s);
    }
}

proof fn lemma_entry_remove_at(s: Seq<ChannelEntry>, channel_id: u64, k: int)
    requires
        0 <= k < s.len(),
        s[k].channel_id == channel_id,
        forall|i: int| 0 <= i < s.len() && i != k ==> (#[trigger] s[i]).channel_id != channel_id,
    ensures
        remove_entry(s, channel_id) == s.remove(k),
    decreases s.len(),
{
    if k == s.len() - 1 {
        lemma_entry_remove_absent(s.drop_last(), channel_id);
        assert(remove_entry(s, channel_id) =~= s.remove(k));
    } else {
        lemma_entry_remove_at(s.drop_last(), channel_id, k);
        assert(remove_entry(s, channel_id) =~= s.remove(k));
    }
}

proof fn lemma_entry_get_after_remove(s: Seq<ChannelEntry>, channel_id: u64)
    ensures
        get_entry(remove_entry(s, channel_id), channel_id) is None,
    decreases s.len(),
{
    if s.len() > 0 {
        lemma_entry_get_after_remove(s.drop_last(), channel_id);
        if s.last().channel_id != channel_id {
            let r = remove_entry(s.drop_last(), channel_id);
            assert(r.push(s.last()).drop_last() =~= r);
        }
    }
}

proof fn lemma_entry_remove_frame(s: Seq<ChannelEntry>, channel_id: u64, other: u64)
    requires
        other != channel_id,
    ensures
        get_entry(remove_entry(s, channel_id), other) == get_entry(s, other),
    decreases s.len(),
{
    if s.len() > 0 {
        lemma_entry_remove_frame(s.drop_last(), channel_id, other);
        if s.last().channel_id != channel_id {
            let r = remove_entry(s.drop_last(), channel_id);
            assert(r.push(s.last()).drop_last() =~= r);
        }
    }
}

proof fn lemma_entry_get_none_no_index(s: Seq<ChannelEntry>, channel_id: u64)
    requires
        get_entry(s, channel_id) is None,
    ensures
        forall|i: int| 0 <= i < s.len() ==> (#[trigger] s[i]).channel_id != channel_id,
    decreases s.len(),
{
    if s.len() > 0 {
        lemma_entry_get_none_no_index(s.drop_last(), channel_id);
        assert forall|i: int| 0 <= i < s.len() implies (#[trigger] s[i]).channel_id != channel_id by {
            if i < s.len() - 1 {
                assert(s.drop_last()[i] == s[i]);
            }
        }
    }
}

/// What marking a channel does to every lookup: the marked channel is
/// tracked as `Sweeping` with its failure count kept, every other
/// channel's entry is untouched.
pub proof fn lemma_mark_sweeping_get(s: Seq<ChannelEntry>, channel_id: u64, c: u64)
    ensures
        get_entry(mark_sweeping(s, channel_id), c) == if c == channel_id {
            Some(
                ChannelEntry {
                    channel_id,
                    state: ChannelState::Sweeping,
                    attempts: attempts_of(s, channel_id),
                },
            )
        } else {
            get_entry(s, c)
        },
{
    match get_entry(s, channel_id) {
        Some(e) => {
            let r = remove_entry(s, channel_id);
            let m = ChannelEntry {
                channel_id,
                state: ChannelState::Sweeping,
                attempts: e.attempts,
            };
            assert(r.push(m).last() == m);
            if c != channel_id {
                assert(r.push(m).drop_last() =~= r);
                lemma_entry_remove_frame(s, channel_id, c);
            }
        },
        None => {
            let m = ChannelEntry { channel_id, state: ChannelState::Sweeping, attempts: 0 };
            assert(s.push(m).last() == m);
            if c != channel_id {
                assert(s.push(m).drop_last() =~= s);
            }
        },
    }
}

/// A channel sweeping before a tick is still sweeping after it, and a
/// tick never takes any channel out of tracking.
pub proof fn lemma_tick_sweeping_monotone(
    s: Seq<ChannelEntry>,
    snap: Seq<RetentionPolicy>,
    now: u64,
    c: u64,
)
    ensures
        is_sweeping(s, c) ==> is_sweeping(tick_entries(s, snap, now), c),
    decreases snap.len(),
{
    if snap.len() > 0 {
        lemma_tick_sweeping_monotone(s, snap.drop_last(), now, c);
        let prev = tick_entries(s, snap.drop_last(), now);
        let p = snap.last();
        if !is_sweeping(prev, p.spec_channel_id()) {
            lemma_mark_sweeping_get(prev, p.spec_channel_id(), c);
        }
    }
}

/// Law: a tick never dispatches for a channel whose earlier sweep is
/// still in flight, and never dispatches twice for one channel — so at
/// most one sweep per channel is in flight at any instant, however fast
/// ticks fire. After the tick, every snapshot channel is sweeping.
pub proof fn law_no_overlapping_sweeps(
    s: Seq<ChannelEntry>,
    snap: Seq<RetentionPolicy>,
    now: u64,
)
    requires
        unique_channels(snap),
    ensures
        forall|i: int|
            0 <= i < tick_tasks(s, snap, now).len() ==> !is_sweeping(
                s,
                (#[trigger] tick_tasks(s, snap, now)[i]).channel_id,
            ),
        forall|i: int, j: int|
            0 <= i < j < tick_tasks(s, snap, now).len() ==> tick_tasks(s, snap, now)[i].channel_id
                != tick_tasks(s, snap, now)[j].channel_id,
        forall|i: int|
            0 <= i < tick_tasks(s, snap, now).len() ==> exists|j: int|
                0 <= j < snap.len() && snap[j].spec_channel_id() == (#[trigger] tick_tasks(
                    s,
                    snap,
                    now,
                )[i]).channel_id && snap[j].spec_cutoff(now) == tick_tasks(s, snap, now)[i].cutoff,
        forall|j: int|
            0 <= j < snap.len() ==> is_sweeping(
                tick_entries(s, snap, now),
                (#[trigger] snap[j]).spec_channel_id(),
            ),
    decreases snap.len(),
{
    if snap.len() > 0 {
        assert(unique_channels(snap.drop_last())) by {
            assert(forall|i: int|
                0 <= i < snap.len() - 1 ==> snap[i] == (#[trigger] snap.drop_last()[i]));
        }
        law_no_overlapping_sweeps(s, snap.drop_last(), now);
        let prev = tick_entries(s, snap.drop_last(), now);
        let rest = tick_tasks(s, snap.drop_last(), now);
        let p = snap.last();
        let cid = p.spec_channel_id();
        let tasks = tick_tasks(s, snap, now);
        let after = tick_entries(s, snap, now);

        // The freshly dispatched channel was not sweeping before the tick.
        if !is_sweeping(prev, cid) {
            lemma_tick_sweeping_monotone(s, snap.drop_last(), now, cid);
            assert(!is_sweeping(s, cid));
        }

        // Earlier tasks come from earlier snapshot entries, whose channels
        // differ from the last entry's channel.
        assert forall|i: int, j: int|
            0 <= i < j < tasks.len() implies tasks[i].channel_id != tasks[j].channel_id by {
            if j == tasks.len() - 1 && !is_sweeping(prev, cid) {
                let k = choose|k: int|
                    0 <= k < snap.drop_last().len() && snap.drop_last()[k].spec_channel_id()
                        == rest[i].channel_id && snap.drop_last()[k].spec_cutoff(now)
                        == rest[i].cutoff;
                assert(snap[k] == snap.drop_last()[k]);
                assert(snap[k].spec_channel_id() != snap[snap.len() - 1].spec_channel_id());
            }
        }

        assert forall|i: int|
            0 <= i < tasks.len() implies exists|j: int|
                0 <= j < snap.len() && snap[j].spec_channel_id() == (#[trigger] tasks[i]).channel_id
                && snap[j].spec_cutoff(now) == tasks[i].cutoff by {
            if i < rest.len() {
                let k = choose|k: int|
                    0 <= k < snap.drop_last().len() && snap.drop_last()[k].spec_channel_id()
                        == rest[i].channel_id && snap.drop_last()[k].spec_cutoff(now)
                        == rest[i].cutoff;
                assert(snap[k] == snap.drop_last()[k]);
                assert(snap[k].spec_channel_id() == tasks[i].channel_id);
            } else {
                assert(snap[snap.len() - 1].spec_channel_id() == tasks[i].channel_id);
            }
        }

        // After the tick every snapshot channel is sweeping.
        assert forall|j: int|
            0 <= j < snap.len() implies is_sweeping(after, (#[trigger] snap[j]).spec_channel_id()) by {
            let c = snap[j].spec_channel_id();
            if j < snap.len() - 1 {
                assert(snap.drop_last()[j] == snap[j]);
                assert(is_sweeping(prev, c));
                if !is_sweeping(prev, cid) {
                    lemma_mark_sweeping_get(prev, cid, c);
                }
            } else {
                if !is_sweeping(prev, cid) {
                    lemma_mark_sweeping_get(prev, cid, c);
                }
            }
        }
    }
}

/// Per-channel sweep state machine, keyed by channel.
pub struct SweepScheduler {
    entries: Vec<ChannelEntry>,
}

impl View for SweepScheduler {
    type V = Seq<ChannelEntry>;

    closed spec fn view(&self) -> Seq<ChannelEntry> {
        self.entries@
    }
}

impl SweepScheduler {
    pub open spec fn wf(self) -> bool {
        unique_entries(self@)
    }

    pub fn new() -> (r: SweepScheduler)
        ensures
            r.wf(),
            r@ == Seq::<ChannelEntry>::empty(),
    {
        let r = SweepScheduler { entries: Vec::new() };
        proof {
            assert(r@ =~= Seq::<ChannelEntry>::empty());
        }
        r
    }

    fn find(&self, channel_id: u64) -> (r: Option<usize>)
        ensures
            match r {
                Some(k) => {
                    &&& k < self@.len()
                    &&& self@[k as int].channel_id == channel_id
                    &&& get_entry(self@, channel_id) == Some(self@[k as int])
                    &&& forall|j: int|
                        k < j < self@.len() ==> (#[trigger] self@[j]).channel_id != channel_id
                },
                None => get_entry(self@, channel_id) is None,
            },
    {
        let mut i: usize = self.entries.len();
        proof {
            assert(self.entries@.subrange(0, i as int) =~= self.entries@);
        }
        while i > 0
            invariant
                i <= self.entries.len(),
                get_entry(self.entries@, channel_id) == get_entry(
                    self.entries@.subrange(0, i as int),
                    channel_id,
                ),
                forall|j: int|
                    i <= j < self.entries@.len() ==> (#[trigger] self.entries@[j]).channel_id
                        != channel_id,
            decreases i,
        {
            i = i - 1;
            proof {
                let pre = self.entries@.subrange(0, i + 1);
                assert(pre.drop_last() =~= self.entries@.subrange(0, i as int));
                assert(pre.last() == self.entries@[i as int]);
            }
            if self.entries[i].channel_id == channel_id {
                return Some(i);
            }
        }
        proof {
            assert(self.entries@.subrange(0, 0) =~= Seq::<ChannelEntry>::empty());
        }
        None
    }

    /// Current state of one channel; a channel never tracked is `Idle`.
    pub fn state_of(&self, channel_id: u64) -> (r: ChannelState)
        ensures
            r == (if is_sweeping(self@, channel_id) {
                ChannelState::Sweeping
            } else {
                ChannelState::Idle
            }),
    {
        match self.find(channel_id) {
            Some(k) => self.entries[k].state,
            None => ChannelState::Idle,
        }
    }

    /// One scheduler tick at wall-clock `now` over a cache snapshot:
    /// dispatches one sweep task per snapshot channel not already
    /// sweeping, marks those channels `Sweeping`, and skips the rest.
    pub fn tick(&mut self, now: u64, snapshot: &Vec<RetentionPolicy>) -> (tasks: Vec<SweepTask>)
        requires
            old(self).wf(),
            unique_channels(snapshot@),
        ensures
            final(self).wf(),
            tasks@ == tick_tasks(old(self)@, snapshot@, now),
            final(self)@ == tick_entries(old(self)@, snapshot@, now),
    {
        let ghost e0 = self.entries@;
        let mut tasks: Vec<SweepTask> = Vec::new();
        let mut i: usize = 0;
        proof {
            assert(snapshot@.subrange(0, 0) =~= Seq::<RetentionPolicy>::empty());
            assert(tasks@ =~= tick_tasks(e0, snapshot@.subrange(0, 0), now));
        }
        while i < snapshot.len()
            invariant
                i <= snapshot.len(),
                unique_entries(self.entries@),
                self.entries@ == tick_entries(e0, snapshot@.subrange(0, i as int), now),
                tasks@ == tick_tasks(e0, snapshot@.subrange(0, i as int), now),
            decreases snapshot.len() - i,
        {
            proof {
                let pre = snapshot@.subrange(0, i + 1);
                assert(pre.drop_last() =~= snapshot@.subrange(0, i as int));
                assert(pre.last() == snapshot@[i as int]);
            }
            let ghost s_now = self.entries@;
            let p = snapshot[i];
            let cid = p.channel_id();
            match self.find(cid) {
                Some(k) => {
                    let e = self.entries[k];
                    match e.state {
                        ChannelState::Sweeping => {},
                        ChannelState::Idle => {
                            tasks.push(
                                SweepTask { channel_id: cid, cutoff: p.cutoff(now), attempt: e.attempts },
                            );
                            self.entries.remove(k);
                            self.entries.push(
                                ChannelEntry {
                                    channel_id: cid,
                                    state: ChannelState::Sweeping,
                                    attempts: e.attempts,
                                },
                            );
                            proof {
                                assert(forall|j: int|
                                    0 <= j < s_now.len() && j != k ==> (#[trigger] s_now[j]).channel_id
                                        != cid);
                                lemma_entry_remove_at(s_now, cid, k as int);
                                lemma_entry_get_after_remove(s_now, cid);
                                lemma_entry_get_none_no_index(remove_entry(s_now, cid), cid);
                            }
                        },
                    }
                },
                None => {
                    tasks.push(SweepTask { channel_id: cid, cutoff: p.cutoff(now), attempt: 0 });
                    self.entries.push(
                        ChannelEntry { channel_id: cid, state: ChannelState::Sweeping, attempts: 0 },
                    );
                    proof {
                        lemma_entry_get_none_no_index(s_now, cid);
                    }
                },
            }
            i = i + 1;
        }
        proof {
            assert(snapshot@.subrange(0, snapshot@.len() as int) =~= snapshot@);
        }
        tasks
    }

    /// Record the end of one dispatched sweep. The channel returns to
    /// `Idle`; a retryable failure advances its failure count, anything
    /// else clears it. Only a fully completed sweep is recorded in the
    /// store — and the store keeps a concurrently deleted policy deleted.
    pub fn complete(
        &mut self,
        channel_id: u64,
        result: &SweepResult,
        swept_at: u64,
        store: &mut RetentionStore,
    )
        requires
            old(self).wf(),
            old(store).wf(),
        ensures
            final(self).wf(),
            final(store).wf(),
            final(self)@ == settle_entries(
                old(self)@,
                channel_id,
                result.outcome is Retryable,
            ),
            result.outcome is Completed ==> final(store)@ == record_swept_result(
                old(store)@,
                channel_id,
                swept_at,
            ),
            !(result.outcome is Completed) ==> final(store)@ == old(store)@,
            final(store).spec_next_id() == old(store).spec_next_id(),
    {
        let ghost s0 = self.entries@;
        match self.find(channel_id) {
            Some(k) => {
                let e = self.entries[k];
                let retryable: bool = match result.outcome {
                    SweepOutcome::Retryable(_) => true,
                    _ => false,
                };
                let attempts: u64 = if retryable {
                    if e.attempts == u64::MAX {
                        e.attempts
                    } else {
                        e.attempts + 1
                    }
                } else {
                    0
                };
                self.entries.remove(k);
                self.entries.push(
                    ChannelEntry { channel_id, state: ChannelState::Idle, attempts },
                );
                proof {
                    assert(forall|j: int|
                        0 <= j < s0.len() && j != k ==> (#[trigger] s0[j]).channel_id != channel_id);
                    lemma_entry_remove_at(s0, channel_id, k as int);
                    lemma_entry_get_after_remove(s0, channel_id);
                    lemma_entry_get_none_no_index(remove_entry(s0, channel_id), channel_id);
                }
            },
            None => {},
        }
        match result.outcome {
            SweepOutcome::Completed => {
                store.record_swept(channel_id, swept_at);
            },
            _ => {},
        }
    }
}

/// Bounded worker pool front: at most `limit` sweeps run at once; work
/// past the cap queues in arrival order instead of spawning unboundedly.
pub struct SweepDispatcher {
    limit: u64,
    active: u64,
    pending: Vec<SweepTask>,
}

impl SweepDispatcher {
    pub closed spec fn spec_limit(self) -> u64 {
        self.limit
    }

    pub closed spec fn spec_active(self) -> u64 {
        self.active
    }

    pub closed spec fn spec_pending(self) -> Seq<SweepTask> {
        self.pending@
    }

    /// Backpressure: running sweeps never exceed the configured cap.
    pub open spec fn wf(self) -> bool {
        self.spec_active() <= self.spec_limit()
    }

    pub fn new(limit: u64) -> (r: SweepDispatcher)
        ensures
            r.wf(),
            r.spec_limit() == limit,
            r.spec_active() == 0,
            r.spec_pending() == Seq::<SweepTask>::empty(),
    {
        let r = SweepDispatcher { limit, active: 0, pending: Vec::new() };
        proof {
            assert(r.spec_pending() =~= Seq::<SweepTask>::empty());
        }
        r
    }

    /// How many sweeps hold a worker slot right now.
    pub fn active(&self) -> (r: u64)
        ensures
            r == self.spec_active(),
    {
        self.active
    }

    /// Hand one task to the pool: it starts now if a worker slot is free,
    /// else it queues.
    pub fn submit(&mut self, task: SweepTask) -> (started: bool)
        requires
            old(self).wf(),
        ensures
            final(self).wf(),
            final(self).spec_limit() == old(self).spec_limit(),
            started == (old(self).spec_active() < old(self).spec_limit()),
            started ==> {
                &&& final(self).spec_active() == old(self).spec_active() + 1
                &&& final(self).spec_pending() == old(self).spec_pending()
            },
            !started ==> {
                &&& final(self).spec_active() == old(self).spec_active()
                &&& final(self).spec_pending() == old(self).spec_pending().push(task)
            },
    {
        if self.active < self.limit {
            self.active = self.active + 1;
            true
        } else {
            self.pending.push(task);
            false
        }
    }

    /// One running sweep finished: the oldest queued task, if any, takes
    /// the freed slot and is returned to be started.
    pub fn on_finished(&mut self) -> (next: Option<SweepTask>)
        requires
            old(self).wf(),
            old(self).spec_active() >= 1,
        ensures
            final(self).wf(),
            final(self).spec_limit() == old(self).spec_limit(),
            old(self).spec_pending().len() > 0 ==> {
                &&& next == Some(old(self).spec_pending()[0])
                &&& final(self).spec_pending() == old(self).spec_pending().drop_first()
                &&& final(self).spec_active() == old(self).spec_active()
            },
            old(self).spec_pending().len() == 0 ==> {
                &&& next is None
                &&& final(self).spec_pending() == old(self).spec_pending()
                &&& final(self).spec_active() == old(self).spec_active() - 1
            },
    {
        if self.pending.len() > 0 {
            let t = self.pending.remove(0);
            proof {
                assert(self.pending@ =~= old(self).spec_pending().drop_first());
            }
            Some(t)
        } else {
            self.active = self.active - 1;
            None
        }
    }
}

} // verus!
