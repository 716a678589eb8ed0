//! The retention store: the durable source of truth for policies.
//!
//! At most one policy exists per channel. The store is modelled as a
//! sequence of policies with pairwise-distinct channel identifiers;
//! every operation's contract is stated over spec-level transition
//! functions on that sequence, so that properties of operation
//! compositions can be proved once, as lemmas, and reused.

use vstd::prelude::*;

use crate::policy::GuildChannel;
use crate::policy::Period;
use crate::policy::RetentionPolicy;
use crate::policy::ValidationError;

verus! {

/// No two entries configure the same channel.
pub open spec fn unique_channels(s: Seq<RetentionPolicy>) -> bool {
    forall|i: int, j: int|
        0 <= i < j < s.len() ==> s[i].spec_channel_id() != s[j].spec_channel_id()
}

/// Every entry carries a strictly positive threshold.
pub open spec fn all_valid(s: Seq<RetentionPolicy>) -> bool {
    forall|i: int| 0 <= i < s.len() ==> (#[trigger] s[i]).valid()
}

/// No two entries share an identifier.
pub open spec fn unique_ids(s: Seq<RetentionPolicy>) -> bool {
    forall|i: int, j: int| 0 <= i < j < s.len() ==> s[i].channel.id != s[j].channel.id
}

/// The policy stored for `channel_id`, if any.
pub open spec fn get_policy(s: Seq<RetentionPolicy>, channel_id: u64) -> Option<RetentionPolicy>
    decreases s.len(),
{
    if s.len() == 0 {
        None
    } else if s.last().spec_channel_id() == channel_id {
        Some(s.last())
    } else {
        get_policy(s.drop_last(), channel_id)
    }
}

/// The sequence with every entry for `channel_id` taken out; order of the
/// remaining entries is kept.
pub open spec fn remove_policy(s: Seq<RetentionPolicy>, channel_id: u64) -> Seq<RetentionPolicy>
    decreases s.len(),
{
    if s.len() == 0 {
        s
    } else if s.last().spec_channel_id() == channel_id {
        remove_policy(s.drop_last(), channel_id)
    } else {
        remove_policy(s.drop_last(), channel_id).push(s.last())
    }
}

/// An updated entry: the threshold and owning guild are replaced, identity
/// and sweep bookkeeping are kept.
pub open spec fn merge_policy(
    p: RetentionPolicy,
    guild_id: u64,
    inactive_after: u64,
) -> RetentionPolicy {
    RetentionPolicy {
        channel: GuildChannel {
            id: p.channel.id,
            guild_id: guild_id,
            channel_id: p.channel.channel_id,
            inactive_secs: inactive_after,
        },
        last_swept_at: p.last_swept_at,
    }
}

/// A freshly created entry: no sweep has happened yet.
pub open spec fn new_policy(
    id: u64,
    guild_id: u64,
    channel_id: u64,
    inactive_after: u64,
) -> RetentionPolicy {
    RetentionPolicy {
        channel: GuildChannel { id, guild_id, channel_id, inactive_secs: inactive_after },
        last_swept_at: None,
    }
}

/// The store's contents after a successful create-or-update for
/// `channel_id`. An existing entry keeps its identity and `last_swept_at`;
/// a missing one is created with `fresh_id`.
pub open spec fn upsert_result(
    s: Seq<RetentionPolicy>,
    channel_id: u64,
    guild_id: u64,
    inactive_after: u64,
    fresh_id: u64,
) -> Seq<RetentionPolicy> {
    match get_policy(s, channel_id) {
        Some(p) => remove_policy(s, channel_id).push(merge_policy(p, guild_id, inactive_after)),
        None => s.push(new_policy(fresh_id, guild_id, channel_id, inactive_after)),
    }
}

/// The entry after a completed sweep at `swept_at` is recorded:
/// `last_swept_at` never moves backwards.
pub open spec fn sweep_merge(p: RetentionPolicy, swept_at: u64) -> RetentionPolicy {
    match p.last_swept_at {
        None => RetentionPolicy { channel: p.channel, last_swept_at: Some(swept_at) },
        Some(prev) => if prev <= swept_at {
            RetentionPolicy { channel: p.channel, last_swept_at: Some(swept_at) }
        } else {
            p
        },
    }
}

/// The store's contents after a completed sweep for `channel_id` is
/// recorded. A concurrently deleted policy stays deleted: recording
/// against a missing channel changes nothing.
pub open spec fn record_swept_result(
    s: Seq<RetentionPolicy>,
    channel_id: u64,
    swept_at: u64,
) -> Seq<RetentionPolicy> {
    match get_policy(s, channel_id) {
        Some(p) => remove_policy(s, channel_id).push(sweep_merge(p, swept_at)),
        None => s,
    }
}

/// A sequence without any entry for `channel_id` is left as it is by
/// `remove_policy`.
proof fn lemma_remove_absent(s: Seq<RetentionPolicy>, channel_id: u64)
    requires
        forall|i: int| 0 <= i < s.len() ==> (#[trigger] s[i]).spec_channel_id() != channel_id,
    ensures
        remove_policy(s, channel_id) == s,
    decreases s.len(),
{
    if s.len() > 0 {
        lemma_remove_absent(s.drop_last(), channel_id);
        assert(remove_policy(s, channel_id) =~= s);
    }
}

/// When exactly the entry at `k` is for `channel_id`, taking the channel
/// out is taking out that one index.
proof fn lemma_remove_at(s: Seq<RetentionPolicy>, channel_id: u64, k: int)
    requires
        0 <= k < s.len(),
        s[k].spec_channel_id() == channel_id,
        forall|i: int|
            0 <= i < s.len() && i != k ==> (#[trigger] s[i]).spec_channel_id() != channel_id,
    ensures
        remove_policy(s, channel_id) == s.remove(k),
    decreases s.len(),
{
    if k == s.len() - 1 {
        lemma_remove_absent(s.drop_last(), channel_id);
        assert(remove_policy(s, channel_id) =~= s.remove(k));
    } else {
        lemma_remove_at(s.drop_last(), channel_id, k);
        assert(remove_policy(s, channel_id) =~= s.remove(k));
    }
}

/// After a channel is taken out, no lookup finds it.
pub proof fn lemma_get_after_remove(s: Seq<RetentionPolicy>, channel_id: u64)
    ensures
        get_policy(remove_policy(s, channel_id), channel_id) is None,
    decreases s.len(),
{
    if s.len() > 0 {
        lemma_get_after_remove(s.drop_last(), channel_id);
        if s.last().spec_channel_id() != channel_id {
            let r = remove_policy(s.drop_last(), channel_id);
            assert(r.push(s.last()).drop_last() =~= r);
        }
    }
}

/// Taking one channel out leaves every other channel's lookup unchanged.
pub proof fn lemma_remove_frame(s: Seq<RetentionPolicy>, channel_id: u64, other: u64)
    requires
        other != channel_id,
    ensures
        get_policy(remove_policy(s, channel_id), other) == get_policy(s, other),
    decreases s.len(),
{
    if s.len() > 0 {
        lemma_remove_frame(s.drop_last(), channel_id, other);
        if s.last().spec_channel_id() != channel_id {
            let r = remove_policy(s.drop_last(), channel_id);
            assert(r.push(s.last()).drop_last() =~= r);
        }
    }
}

/// A lookup that finds nothing means no index holds the channel.
pub proof fn lemma_get_none_no_index(s: Seq<RetentionPolicy>, channel_id: u64)
    requires
        get_policy(s, channel_id) is None,
    ensures
        forall|i: int| 0 <= i < s.len() ==> (#[trigger] s[i]).spec_channel_id() != channel_id,
    decreases s.len(),
{
    if s.len() > 0 {
        lemma_get_none_no_index(s.drop_last(), channel_id);
        assert forall|i: int|
            0 <= i < s.len() implies (#[trigger] s[i]).spec_channel_id() != channel_id by {
            if i < s.len() - 1 {
                assert(s.drop_last()[i] == s[i]);
            }
        }
    }
}

/// A found policy carries the channel it was looked up by.
pub proof fn lemma_get_matches(s: Seq<RetentionPolicy>, channel_id: u64)
    requires
        get_policy(s, channel_id) is Some,
    ensures
        get_policy(s, channel_id).unwrap().spec_channel_id() == channel_id,
    decreases s.len(),
{
    if s.len() > 0 && s.last().spec_channel_id() != channel_id {
        lemma_get_matches(s.drop_last(), channel_id);
    }
}

/// Durable mapping from channel to retention policy, keyed by channel:
/// the source of truth the scheduler and cache read.
pub struct RetentionStore {
    policies: Vec<RetentionPolicy>,
    next_id: u64,
}

impl View for RetentionStore {
    type V = Seq<RetentionPolicy>;

    closed spec fn view(&self) -> Seq<RetentionPolicy> {
        self.policies@
    }
}

impl RetentionStore {
    /// The identifier the next created policy will receive.
    pub closed spec fn spec_next_id(self) -> u64 {
        self.next_id
    }

    /// Identifiers already handed out stay below the counter.
    pub open spec fn ids_below(self, bound: u64) -> bool {
        forall|i: int| 0 <= i < self@.len() ==> (#[trigger] self@[i]).channel.id < bound
    }

    pub open spec fn wf(self) -> bool {
        &&& unique_channels(self@)
        &&& unique_ids(self@)
        &&& all_valid(self@)
        &&& self.ids_below(self.spec_next_id())
    }

    pub fn new() -> (r: RetentionStore)
        ensures
            r.wf(),
            r@ == Seq::<RetentionPolicy>::empty(),
            r.spec_next_id() == 0,
    {
        let r = RetentionStore { policies: Vec::new(), next_id: 0 };
        proof {
            assert(r@ =~= Seq::<RetentionPolicy>::empty());
        }
        r
    }

    /// The identifier the next created policy will receive.
    pub fn next_id(&self) -> (r: u64)
        ensures
            r == self.spec_next_id(),
    {
        self.next_id
    }

    /// Index of the entry for `channel_id`, with what the search proves:
    /// the found entry is the lookup's answer and no later index matches.
    fn find(&self, channel_id: u64) -> (r: Option<usize>)
        ensures
            match r {
                Some(k) => {
                    &&& k < self@.len()
                    &&& self@[k as int].spec_channel_id() == channel_id
                    &&& get_policy(self@, channel_id) == Some(self@[k as int])
                    &&& forall|j: int|
                        k < j < self@.len() ==> (#[trigger] self@[j]).spec_channel_id()
                            != channel_id
                },
                None => get_policy(self@, channel_id) is None,
            },
    {
        let mut i: usize = self.policies.len();
        proof {
            assert(self.policies@.subrange(0, i as int) =~= self.policies@);
        }
        while i > 0
            invariant
                i <= self.policies.len(),
                get_policy(self.policies@, channel_id) == get_policy(
                    self.policies@.subrange(0, i as int),
                    channel_id,
                ),
                forall|j: int|
                    i <= j < self.policies@.len() ==> (#[trigger] self.policies@[j]).spec_channel_id()
                        != channel_id,
            decreases i,
        {
            i = i - 1;
            proof {
                let pre = self.policies@.subrange(0, i + 1);
                assert(pre.drop_last() =~= self.policies@.subrange(0, i as int));
                assert(pre.last() == self.policies@[i as int]);
            }
            if self.policies[i].channel.channel_id == channel_id {
                return Some(i);
            }
        }
        proof {
            assert(self.policies@.subrange(0, 0) =~= Seq::<RetentionPolicy>::empty());
        }
        None
    }

    /// Point lookup; `None` when the channel has no policy.
    pub fn get(&self, channel_id: u64) -> (r: Option<RetentionPolicy>)
        ensures
            r == get_policy(self@, channel_id),
    {
        match self.find(channel_id) {
            Some(k) => Some(self.policies[k]),
            None => None,
        }
    }

    /// Every stored policy, in storage order.
    pub fn list_all(&self) -> (r: Vec<RetentionPolicy>)
        ensures
            r@ == self@,
    {
        let mut r: Vec<RetentionPolicy> = Vec::new();
        let mut i: usize = 0;
        while i < self.policies.len()
            invariant
                i <= self.policies.len(),
                r@ =~= self.policies@.subrange(0, i as int),
            decreases self.policies.len() - i,
        {
            r.push(self.policies[i]);
            i = i + 1;
        }
        proof {
            assert(r@ =~= self@);
        }
        r
    }

    /// Create or update the policy for `channel_id`. A zero threshold is
    /// rejected; an update replaces the threshold (last write wins) and
    /// keeps `last_swept_at`; a creation assigns the next fresh id.
    pub fn upsert(&mut self, channel_id: u64, guild_id: u64, inactive_after: u64) -> (r: Result<
        (),
        ValidationError,
    >)
        requires
            old(self).wf(),
            old(self).spec_next_id() < u64::MAX,
        ensures
            final(self).wf(),
            inactive_after == 0 ==> {
                &&& r == Err::<(), ValidationError>(ValidationError::NonPositiveDuration)
                &&& final(self)@ == old(self)@
                &&& final(self).spec_next_id() == old(self).spec_next_id()
            },
            inactive_after >= 1 ==> {
                &&& r == Ok::<(), ValidationError>(())
                &&& final(self)@ == upsert_result(
                    old(self)@,
                    channel_id,
                    guild_id,
                    inactive_after,
                    old(self).spec_next_id(),
                )
                &&& final(self).spec_next_id() == if get_policy(old(self)@, channel_id) is None {
                    old(self).spec_next_id() + 1
                } else {
                    old(self).spec_next_id() as int
                }
            },
    {
        if inactive_after == 0 {
            return Err(ValidationError::NonPositiveDuration);
        }
        let ghost s0 = self.policies@;
        match self.find(channel_id) {
            Some(k) => {
                let prev = self.policies[k];
                let merged = RetentionPolicy {
                    channel: GuildChannel {
                        id: prev.channel.id,
                        guild_id: guild_id,
                        channel_id: prev.channel.channel_id,
                        inactive_secs: inactive_after,
                    },
                    last_swept_at: prev.last_swept_at,
                };
                self.policies.remove(k);
                self.policies.push(merged);
                proof {
                    assert(forall|i: int|
                        0 <= i < s0.len() && i != k ==> (#[trigger] s0[i]).spec_channel_id()
                            != channel_id);
                    lemma_remove_at(s0, channel_id, k as int);
                    assert(merged == merge_policy(s0[k as int], guild_id, inactive_after));
                    lemma_get_after_remove(s0, channel_id);
                    lemma_get_none_no_index(remove_policy(s0, channel_id), channel_id);
                }
            },
            None => {
                let created = RetentionPolicy {
                    channel: GuildChannel {
                        id: self.next_id,
                        guild_id: guild_id,
                        channel_id: channel_id,
                        inactive_secs: inactive_after,
                    },
                    last_swept_at: None,
                };
                self.policies.push(created);
                self.next_id = self.next_id + 1;
                proof {
                    lemma_get_none_no_index(s0, channel_id);
                }
            },
        }
        Ok(())
    }

    /// Validated configuration entry point: `amount` units of `period`.
    /// Zero or overflowing durations are rejected; nothing then changes.
    pub fn create_or_update(
        &mut self,
        channel_id: u64,
        guild_id: u64,
        amount: u64,
        period: Period,
    ) -> (r: Result<(), ValidationError>)
        requires
            old(self).wf(),
            old(self).spec_next_id() < u64::MAX,
        ensures
            final(self).wf(),
            amount == 0 ==> r == Err::<(), ValidationError>(ValidationError::NonPositiveDuration),
            amount * period.secs_per_unit() > u64::MAX ==> r == Err::<(), ValidationError>(
                ValidationError::DurationOverflow,
            ),
            amount >= 1 && amount * period.secs_per_unit() <= u64::MAX ==> r is Ok,
            r is Err ==> {
                &&& final(self)@ == old(self)@
                &&& final(self).spec_next_id() == old(self).spec_next_id()
            },
            r is Ok ==> {
                &&& 1 <= amount * period.secs_per_unit() <= u64::MAX
                &&& final(self)@ == upsert_result(
                    old(self)@,
                    channel_id,
                    guild_id,
                    (amount * period.secs_per_unit()) as u64,
                    old(self).spec_next_id(),
                )
            },
    {
        proof {
            assert(amount >= 1 && period.secs_per_unit() >= 1 ==> amount
                * period.secs_per_unit() >= 1) by (nonlinear_arith);
        }
        match period.checked_duration(amount) {
            None => Err(ValidationError::DurationOverflow),
            Some(d) => {
                if d == 0 {
                    Err(ValidationError::NonPositiveDuration)
                } else {
                    self.upsert(channel_id, guild_id, d)
                }
            },
        }
    }

    /// Delete the policy for `channel_id`; reports whether one existed.
    pub fn remove(&mut self, channel_id: u64) -> (r: bool)
        requires
            old(self).wf(),
        ensures
            final(self).wf(),
            final(self)@ == remove_policy(old(self)@, channel_id),
            r == (get_policy(old(self)@, channel_id) is Some),
            final(self).spec_next_id() == old(self).spec_next_id(),
    {
        let ghost s0 = self.policies@;
        match self.find(channel_id) {
            Some(k) => {
                self.policies.remove(k);
                proof {
                    assert(forall|i: int|
                        0 <= i < s0.len() && i != k ==> (#[trigger] s0[i]).spec_channel_id()
                            != channel_id);
                    lemma_remove_at(s0, channel_id, k as int);
                }
                true
            },
            None => {
                proof {
                    lemma_get_none_no_index(s0, channel_id);
                    lemma_remove_absent(s0, channel_id);
                }
                false
            },
        }
    }

    /// Record that a sweep for `channel_id` completed at `swept_at`.
    /// Deletion wins: against a missing channel this is a no-op, never a
    /// resurrection. `last_swept_at` never moves backwards.
    pub fn record_swept(&mut self, channel_id: u64, swept_at: u64)
        requires
            old(self).wf(),
        ensures
            final(self).wf(),
            final(self)@ == record_swept_result(old(self)@, channel_id, swept_at),
            get_policy(old(self)@, channel_id) is None ==> final(self)@ == old(self)@,
            final(self).spec_next_id() == old(self).spec_next_id(),
    {
        let ghost s0 = self.policies@;
        match self.find(channel_id) {
            Some(k) => {
                let prev = self.policies[k];
                let advanced: bool = match prev.last_swept_at {
                    None => true,
                    Some(t) => t <= swept_at,
                };
                let swept = RetentionPolicy {
                    channel: prev.channel,
                    last_swept_at: if advanced {
                        Some(swept_at)
                    } else {
                        prev.last_swept_at
                    },
                };
                self.policies.remove(k);
                self.policies.push(swept);
                proof {
                    assert(forall|i: int|
                        0 <= i < s0.len() && i != k ==> (#[trigger] s0[i]).spec_channel_id()
                            != channel_id);
                    lemma_remove_at(s0, channel_id, k as int);
                    assert(swept == sweep_merge(s0[k as int], swept_at));
                    lemma_get_after_remove(s0, channel_id);
                    lemma_get_none_no_index(remove_policy(s0, channel_id), channel_id);
                }
            },
            None => {},
        }
    }
}

/// Law: a successful create-or-update followed by a lookup of the same
/// channel returns a policy with that channel and exactly the requested
/// threshold, and an update keeps the prior sweep bookkeeping.
pub proof fn law_upsert_then_get(
    s: Seq<RetentionPolicy>,
    channel_id: u64,
    guild_id: u64,
    inactive_after: u64,
    fresh_id: u64,
)
    ensures
        ({
            let r = get_policy(upsert_result(s, channel_id, guild_id, inactive_after, fresh_id), channel_id);
            &&& r is Some
            &&& r.unwrap().spec_channel_id() == channel_id
            &&& r.unwrap().spec_inactive_after() == inactive_after
            &&& r.unwrap().channel.guild_id == guild_id
            &&& r.unwrap().last_swept_at == match get_policy(s, channel_id) {
                Some(p) => p.last_swept_at,
                None => None::<u64>,
            }
        }),
{
    match get_policy(s, channel_id) {
        Some(p) => {
            lemma_get_matches(s, channel_id);
            let merged = merge_policy(p, guild_id, inactive_after);
            let t = remove_policy(s, channel_id).push(merged);
            assert(t.last() == merged);
        },
        None => {
            let created = new_policy(fresh_id, guild_id, channel_id, inactive_after);
            let t = s.push(created);
            assert(t.last() == created);
        },
    }
}

/// Law: create-or-update leaves every other channel's lookup unchanged.
pub proof fn law_upsert_frame(
    s: Seq<RetentionPolicy>,
    channel_id: u64,
    guild_id: u64,
    inactive_after: u64,
    fresh_id: u64,
    other: u64,
)
    requires
        other != channel_id,
    ensures
        get_policy(
            upsert_result(s, channel_id, guild_id, inactive_after, fresh_id),
            other,
        ) == get_policy(s, other),
{
    match get_policy(s, channel_id) {
        Some(p) => {
            lemma_get_matches(s, channel_id);
            let merged = merge_policy(p, guild_id, inactive_after);
            let r = remove_policy(s, channel_id);
            assert(r.push(merged).drop_last() =~= r);
            lemma_remove_frame(s, channel_id, other);
        },
        None => {
            assert(s.push(new_policy(fresh_id, guild_id, channel_id, inactive_after)).drop_last()
                =~= s);
        },
    }
}

/// Law: deletion wins over an in-flight sweep. Once a channel's policy is
/// removed, its lookup stays `None`, and recording a sweep completion for
/// it changes nothing — the deleted policy is not resurrected.
pub proof fn law_delete_wins(s: Seq<RetentionPolicy>, channel_id: u64, swept_at: u64)
    ensures
        get_policy(remove_policy(s, channel_id), channel_id) is None,
        record_swept_result(remove_policy(s, channel_id), channel_id, swept_at) == remove_policy(
            s,
            channel_id,
        ),
{
    lemma_get_after_remove(s, channel_id);
}

/// Law: recording a sweep completion never moves `last_swept_at`
/// backwards, and leaves the channel's configuration untouched.
pub proof fn law_record_swept_monotone(s: Seq<RetentionPolicy>, channel_id: u64, swept_at: u64)
    requires
        get_policy(s, channel_id) is Some,
    ensures
        ({
            let before = get_policy(s, channel_id).unwrap();
            let r = get_policy(record_swept_result(s, channel_id, swept_at), channel_id);
            &&& r is Some
            &&& r.unwrap().channel == before.channel
            &&& r.unwrap().last_swept_at is Some
            &&& match before.last_swept_at {
                Some(t) => t <= r.unwrap().last_swept_at.unwrap(),
                None => r.unwrap().last_swept_at == Some(swept_at),
            }
        }),
{
    lemma_get_matches(s, channel_id);
    let before = get_policy(s, channel_id).unwrap();
    let t = remove_policy(s, channel_id).push(sweep_merge(before, swept_at));
    assert(t.last() == sweep_merge(before, swept_at));
}

} // verus!
