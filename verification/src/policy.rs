//! Retention policies: the unit of configuration.
//!
//! A policy binds a channel to an inactivity threshold. Messages older than
//! `now - inactive_after` are eligible for deletion. Durations are whole
//! seconds; a policy's threshold must be strictly positive.

use vstd::prelude::*;

verus! {

/// Time unit an operator may pick when configuring a threshold.
#[derive(Clone, Copy, PartialEq, Eq, Structural, Debug)]
pub enum Period {
    Sec,
    Min,
    Hours,
    Days,
}

impl Period {
    /// Seconds in one unit of this period.
    pub open spec fn secs_per_unit(self) -> u64 {
        match self {
            Period::Sec => 1,
            Period::Min => 60,
            Period::Hours => 3600,
            Period::Days => 86400,
        }
    }

    pub fn to_secs(&self) -> (r: u64)
        ensures
            r == self.secs_per_unit(),
            1 <= r,
    {
        match self {
            Period::Sec => 1,
            Period::Min => 60,
            Period::Hours => 60 * 60,
            Period::Days => 60 * 60 * 24,
        }
    }

    /// `amount` units of this period, as seconds.
    pub fn duration(&self, amount: u64) -> (r: u64)
        requires
            amount * self.secs_per_unit() <= u64::MAX,
        ensures
            r == amount * self.secs_per_unit(),
    {
        amount * self.to_secs()
    }

    /// Like `duration`, but reports overflow instead of demanding its absence.
    pub fn checked_duration(&self, amount: u64) -> (r: Option<u64>)
        ensures
            amount * self.secs_per_unit() <= u64::MAX ==> r == Some(
                (amount * self.secs_per_unit()) as u64,
            ),
            amount * self.secs_per_unit() > u64::MAX ==> r is None,
    {
        amount.checked_mul(self.to_secs())
    }
}

/// Rejected configuration input.
#[derive(Clone, Copy, PartialEq, Eq, Structural, Debug)]
pub enum ValidationError {
    /// The requested threshold is zero seconds.
    NonPositiveDuration,
    /// The requested threshold does not fit in a 64-bit count of seconds.
    DurationOverflow,
}

/// A configured channel: the persisted row shape of one retention rule.
#[derive(Clone, Copy, Debug)]
pub struct GuildChannel {
    pub id: u64,
    pub guild_id: u64,
    pub channel_id: u64,
    /// Inactivity threshold, in seconds; strictly positive in a valid row.
    pub inactive_secs: u64,
}

impl GuildChannel {
    pub open spec fn valid(self) -> bool {
        self.inactive_secs >= 1
    }
}

/// A channel's retention rule together with its sweep bookkeeping.
#[derive(Clone, Copy, Debug)]
pub struct RetentionPolicy {
    pub channel: GuildChannel,
    /// Epoch seconds of the most recent completed sweep; `None` until one.
    pub last_swept_at: Option<u64>,
}

impl RetentionPolicy {
    pub open spec fn valid(self) -> bool {
        self.channel.valid()
    }

    pub open spec fn spec_channel_id(self) -> u64 {
        self.channel.channel_id
    }

    pub open spec fn spec_inactive_after(self) -> u64 {
        self.channel.inactive_secs
    }

    pub fn channel_id(&self) -> (r: u64)
        ensures
            r == self.spec_channel_id(),
    {
        self.channel.channel_id
    }

    pub fn inactive_after(&self) -> (r: u64)
        ensures
            r == self.spec_inactive_after(),
    {
        self.channel.inactive_secs
    }

    pub fn last_swept_at(&self) -> (r: Option<u64>)
        ensures
            r == self.last_swept_at,
    {
        self.last_swept_at
    }

    /// The deletion boundary this policy yields at time `now`: messages
    /// strictly older are eligible. Clamped at the epoch for thresholds
    /// that reach further back than time zero.
    pub open spec fn spec_cutoff(self, now: u64) -> u64 {
        if now >= self.channel.inactive_secs {
            (now - self.channel.inactive_secs) as u64
        } else {
            0
        }
    }

    pub fn cutoff(&self, now: u64) -> (r: u64)
        ensures
            r == self.spec_cutoff(now),
    {
        if now >= self.channel.inactive_secs {
            now - self.channel.inactive_secs
        } else {
            0
        }
    }
}

} // verus!
