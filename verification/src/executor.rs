//! The purge executor's decision core.
//!
//! Talking to the remote message API is the caller's job; everything the
//! executor decides — which enumerated messages are eligible, which of
//! those may go through bulk deletion, whether a rate-limited call may be
//! retried, what a finished sweep reports — is computed here, verified,
//! from plain values the caller hands in.

use vstd::prelude::*;

verus! {

/// One enumerated remote message: its identifier and creation time
/// (epoch seconds).
#[derive(Clone, Copy, PartialEq, Eq, Structural, Debug)]
pub struct Message {
    pub id: u64,
    pub timestamp: u64,
}

/// A transient error: the sweep aborts and is retried on a later tick.
#[derive(Clone, Copy, PartialEq, Eq, Structural, Debug)]
pub enum RetryableApiError {
    /// The remote API's rate-limit budget was exhausted for this sweep.
    RateLimitExceeded,
    /// A transient network failure.
    TransientNetwork,
    /// The sweep exceeded its wall-clock budget.
    Timeout,
}

/// A permanent error: the sweep aborts and only the schedule retries it.
#[derive(Clone, Copy, PartialEq, Eq, Structural, Debug)]
pub enum PermanentFailure {
    PermissionDenied,
    ChannelDeleted,
}

/// How one sweep ended.
#[derive(Clone, Copy, PartialEq, Eq, Structural, Debug)]
pub enum SweepOutcome {
    Completed,
    Retryable(RetryableApiError),
    Permanent(PermanentFailure),
}

/// What one sweep reports: messages deleted before it ended, and how it
/// ended. Partial success keeps its count.
#[derive(Clone, Copy, PartialEq, Eq, Structural, Debug)]
pub struct SweepResult {
    pub deleted_count: u64,
    pub outcome: SweepOutcome,
}

/// The messages eligible for deletion: strictly older than the cutoff.
/// Order of the input is kept.
pub open spec fn eligible_messages(msgs: Seq<Message>, cutoff: u64) -> Seq<Message>
    decreases msgs.len(),
{
    if msgs.len() == 0 {
        Seq::empty()
    } else {
        let rest = eligible_messages(msgs.drop_last(), cutoff);
        if msgs.last().timestamp < cutoff {
            rest.push(msgs.last())
        } else {
            rest
        }
    }
}

/// The part of a message sequence at or after `bound`.
pub open spec fn at_least(msgs: Seq<Message>, bound: u64) -> Seq<Message>
    decreases msgs.len(),
{
    if msgs.len() == 0 {
        Seq::empty()
    } else {
        let rest = at_least(msgs.drop_last(), bound);
        if msgs.last().timestamp >= bound {
            rest.push(msgs.last())
        } else {
            rest
        }
    }
}

/// The part of a message sequence strictly before `bound`.
pub open spec fn below(msgs: Seq<Message>, bound: u64) -> Seq<Message>
    decreases msgs.len(),
{
    if msgs.len() == 0 {
        Seq::empty()
    } else {
        let rest = below(msgs.drop_last(), bound);
        if msgs.last().timestamp < bound {
            rest.push(msgs.last())
        } else {
            rest
        }
    }
}

/// Eligible messages young enough for the remote API's bulk deletion.
pub open spec fn bulk_part(msgs: Seq<Message>, cutoff: u64, bulk_min_ts: u64) -> Seq<Message> {
    at_least(eligible_messages(msgs, cutoff), bulk_min_ts)
}

/// Eligible messages too old for bulk deletion: each is deleted singly,
/// never silently skipped.
pub open spec fn single_part(msgs: Seq<Message>, cutoff: u64, bulk_min_ts: u64) -> Seq<Message> {
    below(eligible_messages(msgs, cutoff), bulk_min_ts)
}

/// Law: eligibility selects exactly the messages older than the cutoff —
/// nothing at or past the cutoff is ever selected, and every enumerated
/// message older than it is.
pub proof fn law_eligible_exact(msgs: Seq<Message>, cutoff: u64)
    ensures
        forall|i: int|
            0 <= i < eligible_messages(msgs, cutoff).len() ==> (#[trigger] eligible_messages(
                msgs,
                cutoff,
            )[i]).timestamp < cutoff,
        forall|m: Message| eligible_messages(msgs, cutoff).contains(m) ==> msgs.contains(m),
        forall|m: Message|
            msgs.contains(m) && m.timestamp < cutoff ==> eligible_messages(msgs, cutoff).contains(
                m,
            ),
    decreases msgs.len(),
{
    if msgs.len() > 0 {
        law_eligible_exact(msgs.drop_last(), cutoff);
        let e = eligible_messages(msgs, cutoff);
        let rest = eligible_messages(msgs.drop_last(), cutoff);
        assert forall|m: Message| e.contains(m) implies msgs.contains(m) by {
            if rest.contains(m) {
                let i = choose|i: int| 0 <= i < rest.len() && rest[i] == m;
                assert(msgs.drop_last().contains(m));
                let j = choose|j: int| 0 <= j < msgs.drop_last().len() && msgs.drop_last()[j] == m;
                assert(msgs[j] == m);
            } else {
                assert(m == msgs.last());
                assert(msgs[msgs.len() - 1] == m);
            }
        }
        assert forall|m: Message|
            msgs.contains(m) && m.timestamp < cutoff implies e.contains(m) by {
            let i = choose|i: int| 0 <= i < msgs.len() && msgs[i] == m;
            if i < msgs.len() - 1 {
                assert(msgs.drop_last()[i] == m);
                assert(msgs.drop_last().contains(m));
                let j = choose|j: int| 0 <= j < rest.len() && rest[j] == m;
                if msgs.last().timestamp < cutoff {
                    assert(e[j] == m);
                } else {
                    assert(e[j] == m);
                }
            } else {
                assert(e.last() == m);
            }
        }
    }
}

/// Law: no message is skipped or double-processed across a page
/// boundary — eligibility over two consecutive pages is eligibility of
/// each page, in order.
pub proof fn law_pagination_no_skips(a: Seq<Message>, b: Seq<Message>, cutoff: u64)
    ensures
        eligible_messages(a + b, cutoff) == eligible_messages(a, cutoff) + eligible_messages(
            b,
            cutoff,
        ),
    decreases b.len(),
{
    if b.len() == 0 {
        assert(a + b =~= a);
        assert(eligible_messages(a, cutoff) + eligible_messages(b, cutoff) =~= eligible_messages(
            a,
            cutoff,
        ));
    } else {
        law_pagination_no_skips(a, b.drop_last(), cutoff);
        assert((a + b).drop_last() =~= a + b.drop_last());
        assert((a + b).last() == b.last());
        if b.last().timestamp < cutoff {
            assert(eligible_messages(a, cutoff) + eligible_messages(b, cutoff)
                =~= (eligible_messages(a, cutoff) + eligible_messages(b.drop_last(), cutoff)).push(
                b.last(),
            ));
        } else {
            assert(eligible_messages(a, cutoff) + eligible_messages(b, cutoff)
                =~= eligible_messages(a, cutoff) + eligible_messages(b.drop_last(), cutoff));
        }
    }
}

/// Law: the bulk and single plans partition the eligible messages by the
/// bulk-eligibility window — every eligible message stands in exactly one
/// of the two, and both plans stay strictly below the cutoff.
pub proof fn law_plan_partitions(msgs: Seq<Message>, cutoff: u64, bulk_min_ts: u64)
    ensures
        bulk_part(msgs, cutoff, bulk_min_ts).len() + single_part(msgs, cutoff, bulk_min_ts).len()
            == eligible_messages(msgs, cutoff).len(),
        forall|i: int|
            0 <= i < bulk_part(msgs, cutoff, bulk_min_ts).len() ==> {
                let m = #[trigger] bulk_part(msgs, cutoff, bulk_min_ts)[i];
                m.timestamp < cutoff && m.timestamp >= bulk_min_ts
            },
        forall|i: int|
            0 <= i < single_part(msgs, cutoff, bulk_min_ts).len() ==> {
                let m = #[trigger] single_part(msgs, cutoff, bulk_min_ts)[i];
                m.timestamp < cutoff && m.timestamp < bulk_min_ts
            },
{
    law_eligible_exact(msgs, cutoff);
    lemma_split_by_bound(eligible_messages(msgs, cutoff), bulk_min_ts);
}

/// Splitting a sequence at a time bound loses nothing: the two halves
/// cover it, and each half's elements sit on its side of the bound.
proof fn lemma_split_by_bound(s: Seq<Message>, bound: u64)
    ensures
        at_least(s, bound).len() + below(s, bound).len() == s.len(),
        forall|i: int|
            0 <= i < at_least(s, bound).len() ==> (#[trigger] at_least(s, bound)[i]).timestamp
                >= bound,
        forall|i: int|
            0 <= i < below(s, bound).len() ==> (#[trigger] below(s, bound)[i]).timestamp < bound,
        forall|i: int| 0 <= i < at_least(s, bound).len() ==> s.contains(at_least(s, bound)[i]),
        forall|i: int| 0 <= i < below(s, bound).len() ==> s.contains(below(s, bound)[i]),
    decreases s.len(),
{
    if s.len() > 0 {
        lemma_split_by_bound(s.drop_last(), bound);
        assert forall|i: int|
            0 <= i < at_least(s, bound).len() implies s.contains(at_least(s, bound)[i]) by {
            let rest = at_least(s.drop_last(), bound);
            if i < rest.len() {
                assert(s.drop_last().contains(rest[i]));
                let j = choose|j: int|
                    0 <= j < s.drop_last().len() && s.drop_last()[j] == rest[i];
                assert(s[j] == rest[i]);
            } else {
                assert(s[s.len() - 1] == at_least(s, bound)[i]);
            }
        }
        assert forall|i: int|
            0 <= i < below(s, bound).len() implies s.contains(below(s, bound)[i]) by {
            let rest = below(s.drop_last(), bound);
            if i < rest.len() {
                assert(s.drop_last().contains(rest[i]));
                let j = choose|j: int|
                    0 <= j < s.drop_last().len() && s.drop_last()[j] == rest[i];
                assert(s[j] == rest[i]);
            } else {
                assert(s[s.len() - 1] == below(s, bound)[i]);
            }
        }
    }
}

/// Deletions planned for one enumerated page: identifiers to hand to the
/// remote API's bulk call, and those to delete one by one.
pub struct PagePlan {
    pub bulk: Vec<Message>,
    pub single: Vec<Message>,
}

/// One sweep of one channel: tracks the deletion tally and the
/// rate-limit retry budget while the caller drives the remote calls.
pub struct SweepExecution {
    channel_id: u64,
    cutoff: u64,
    bulk_min_ts: u64,
    max_retries: u64,
    retries: u64,
    deleted: u64,
}

impl SweepExecution {
    pub closed spec fn spec_channel_id(self) -> u64 {
        self.channel_id
    }

    pub closed spec fn spec_cutoff(self) -> u64 {
        self.cutoff
    }

    pub closed spec fn spec_bulk_min_ts(self) -> u64 {
        self.bulk_min_ts
    }

    pub closed spec fn spec_max_retries(self) -> u64 {
        self.max_retries
    }

    pub closed spec fn spec_retries(self) -> u64 {
        self.retries
    }

    pub closed spec fn spec_deleted(self) -> u64 {
        self.deleted
    }

    /// Retries already spent never pass the configured bound.
    pub open spec fn wf(self) -> bool {
        self.spec_retries() <= self.spec_max_retries()
    }

    pub fn new(channel_id: u64, cutoff: u64, bulk_min_ts: u64, max_retries: u64) -> (r:
        SweepExecution)
        ensures
            r.wf(),
            r.spec_channel_id() == channel_id,
            r.spec_cutoff() == cutoff,
            r.spec_bulk_min_ts() == bulk_min_ts,
            r.spec_max_retries() == max_retries,
            r.spec_retries() == 0,
            r.spec_deleted() == 0,
    {
        SweepExecution { channel_id, cutoff, bulk_min_ts, max_retries, retries: 0, deleted: 0 }
    }

    pub fn channel_id(&self) -> (r: u64)
        ensures
            r == self.spec_channel_id(),
    {
        self.channel_id
    }

    pub fn cutoff(&self) -> (r: u64)
        ensures
            r == self.spec_cutoff(),
    {
        self.cutoff
    }

    pub fn deleted(&self) -> (r: u64)
        ensures
            r == self.spec_deleted(),
    {
        self.deleted
    }

    /// Plan one enumerated page: exactly the messages older than the
    /// cutoff are planned, split by the bulk-eligibility window.
    pub fn plan_page(&self, msgs: &Vec<Message>) -> (r: PagePlan)
        ensures
            r.bulk@ == bulk_part(msgs@, self.spec_cutoff(), self.spec_bulk_min_ts()),
            r.single@ == single_part(msgs@, self.spec_cutoff(), self.spec_bulk_min_ts()),
    {
        let eligible = select_eligible(msgs, self.cutoff);
        let mut bulk: Vec<Message> = Vec::new();
        let mut single: Vec<Message> = Vec::new();
        let mut i: usize = 0;
        proof {
            assert(eligible@.subrange(0, 0) =~= Seq::<Message>::empty());
        }
        while i < eligible.len()
            invariant
                i <= eligible.len(),
                bulk@ == at_least(eligible@.subrange(0, i as int), self.spec_bulk_min_ts()),
                single@ == below(eligible@.subrange(0, i as int), self.spec_bulk_min_ts()),
            decreases eligible.len() - i,
        {
            proof {
                let pre = eligible@.subrange(0, i + 1);
                assert(pre.drop_last() =~= eligible@.subrange(0, i as int));
                assert(pre.last() == eligible@[i as int]);
            }
            let m = eligible[i];
            if m.timestamp >= self.bulk_min_ts {
                bulk.push(m);
            } else {
                single.push(m);
            }
            i = i + 1;
        }
        proof {
            assert(eligible@.subrange(0, eligible@.len() as int) =~= eligible@);
        }
        PagePlan { bulk, single }
    }

    /// Add successfully deleted messages to the tally; the count
    /// saturates rather than wrapping.
    pub fn record_deleted(&mut self, n: u64)
        ensures
            final(self).spec_deleted() == if old(self).spec_deleted() + n <= u64::MAX {
                old(self).spec_deleted() + n
            } else {
                u64::MAX as int
            },
            final(self).spec_retries() == old(self).spec_retries(),
            final(self).spec_max_retries() == old(self).spec_max_retries(),
            final(self).spec_channel_id() == old(self).spec_channel_id(),
            final(self).spec_cutoff() == old(self).spec_cutoff(),
            final(self).spec_bulk_min_ts() == old(self).spec_bulk_min_ts(),
            old(self).wf() ==> final(self).wf(),
    {
        if n <= u64::MAX - self.deleted {
            self.deleted = self.deleted + n;
        } else {
            self.deleted = u64::MAX;
        }
    }

    /// Check the sweep's wall-clock budget against clock readings the
    /// caller took: once more than `budget_secs` have passed since
    /// `started_at`, the sweep ends with a retryable `Timeout` — it is
    /// retried on a later tick, never immediately.
    pub fn check_budget(&self, started_at: u64, now: u64, budget_secs: u64) -> (r: Option<
        SweepResult,
    >)
        ensures
            r == (if now > started_at && now - started_at > budget_secs {
                Some(
                    SweepResult {
                        deleted_count: self.spec_deleted(),
                        outcome: SweepOutcome::Retryable(RetryableApiError::Timeout),
                    },
                )
            } else {
                None::<SweepResult>
            }),
    {
        let elapsed: u64 = if now > started_at {
            now - started_at
        } else {
            0
        };
        if elapsed > budget_secs {
            Some(
                SweepResult {
                    deleted_count: self.deleted,
                    outcome: SweepOutcome::Retryable(RetryableApiError::Timeout),
                },
            )
        } else {
            None
        }
    }

    /// Answer a rate-limit response. While the retry budget lasts, one
    /// more retry is granted (`None`); once it is spent, the sweep ends
    /// with a retryable outcome — never more than `max_retries` retries
    /// within one sweep, and never a crash.
    pub fn on_rate_limit(&mut self) -> (r: Option<SweepResult>)
        requires
            old(self).wf(),
        ensures
            final(self).wf(),
            old(self).spec_retries() < old(self).spec_max_retries() ==> {
                &&& r is None
                &&& final(self).spec_retries() == old(self).spec_retries() + 1
            },
            old(self).spec_retries() == old(self).spec_max_retries() ==> {
                &&& *final(self) == *old(self)
                &&& r == Some(
                    SweepResult {
                        deleted_count: old(self).spec_deleted(),
                        outcome: SweepOutcome::Retryable(RetryableApiError::RateLimitExceeded),
                    },
                )
            },
            final(self).spec_deleted() == old(self).spec_deleted(),
            final(self).spec_max_retries() == old(self).spec_max_retries(),
            final(self).spec_channel_id() == old(self).spec_channel_id(),
            final(self).spec_cutoff() == old(self).spec_cutoff(),
            final(self).spec_bulk_min_ts() == old(self).spec_bulk_min_ts(),
    {
        if self.retries < self.max_retries {
            self.retries = self.retries + 1;
            None
        } else {
            Some(
                SweepResult {
                    deleted_count: self.deleted,
                    outcome: SweepOutcome::Retryable(RetryableApiError::RateLimitExceeded),
                },
            )
        }
    }

    /// End the sweep after a failure; the tally of messages already
    /// deleted is reported, not re-raised as pending.
    pub fn fail(&self, outcome: SweepOutcome) -> (r: SweepResult)
        ensures
            r == (SweepResult { deleted_count: self.spec_deleted(), outcome }),
    {
        SweepResult { deleted_count: self.deleted, outcome }
    }

    /// End the sweep after every page was planned and every planned
    /// deletion succeeded.
    pub fn complete(&self) -> (r: SweepResult)
        ensures
            r == (SweepResult {
                deleted_count: self.spec_deleted(),
                outcome: SweepOutcome::Completed,
            }),
    {
        SweepResult { deleted_count: self.deleted, outcome: SweepOutcome::Completed }
    }
}

/// The messages of one page strictly older than `cutoff`, in page order.
pub fn select_eligible(msgs: &Vec<Message>, cutoff: u64) -> (r: Vec<Message>)
    ensures
        r@ == eligible_messages(msgs@, cutoff),
{
    let mut r: Vec<Message> = Vec::new();
    let mut i: usize = 0;
    proof {
        assert(msgs@.subrange(0, 0) =~= Seq::<Message>::empty());
    }
    while i < msgs.len()
        invariant
            i <= msgs.len(),
            r@ == eligible_messages(msgs@.subrange(0, i as int), cutoff),
        decreases msgs.len() - i,
    {
        proof {
            let pre = msgs@.subrange(0, i + 1);
            assert(pre.drop_last() =~= msgs@.subrange(0, i as int));
            assert(pre.last() == msgs@[i as int]);
        }
        if msgs[i].timestamp < cutoff {
            let m = msgs[i];
            r.push(m);
        }
        i = i + 1;
    }
    proof {
        assert(msgs@.subrange(0, msgs@.len() as int) =~= msgs@);
    }
    r
}

} // verus!
