use vstd::prelude::*;

verus! {

/// Seconds in one day; `days_active` counts whole days of this length.
pub const SECONDS_PER_DAY: i64 = 86400;

/// Discrete reputation levels, ordered from lowest to highest.
#[derive(Clone, Copy, Debug, PartialEq, Eq, Structural)]
pub enum TrustLevel {
    L0Registered,
    L1Confirmed,
    L2Active,
    L3Trusted,
}

impl TrustLevel {
    /// Position of the level in the order Registered < Confirmed < Active < Trusted.
    pub open spec fn rank(self) -> nat {
        match self {
            TrustLevel::L0Registered => 0,
            TrustLevel::L1Confirmed => 1,
            TrustLevel::L2Active => 2,
            TrustLevel::L3Trusted => 3,
        }
    }

    /// The byte that stands for the level in stored records.
    pub fn to_byte(self) -> (r: u8)
        ensures
            r as nat == self.rank(),
    {
        match self {
            TrustLevel::L0Registered => 0,
            TrustLevel::L1Confirmed => 1,
            TrustLevel::L2Active => 2,
            TrustLevel::L3Trusted => 3,
        }
    }

    /// The level stored as byte `b`, if `b` names one.
    pub fn from_byte(b: u8) -> (r: Option<TrustLevel>)
        ensures
            b <= 3 <==> r is Some,
            r matches Some(t) ==> t.rank() == b as nat,
    {
        if b == 0 {
            Some(TrustLevel::L0Registered)
        } else if b == 1 {
            Some(TrustLevel::L1Confirmed)
        } else if b == 2 {
            Some(TrustLevel::L2Active)
        } else if b == 3 {
            Some(TrustLevel::L3Trusted)
        } else {
            None
        }
    }
}

/// Rank is one-to-one: two levels of equal rank are the same level.
pub proof fn lemma_rank_injective(a: TrustLevel, b: TrustLevel)
    requires
        a.rank() == b.rank(),
    ensures
        a == b,
{
}

/// The tier earned by `total_activities` logged actions over `days_active` days.
pub open spec fn tier(total_activities: u64, days_active: i64) -> TrustLevel {
    if days_active >= 30 && total_activities >= 100 {
        TrustLevel::L3Trusted
    } else if days_active >= 7 && total_activities >= 20 {
        TrustLevel::L2Active
    } else if total_activities >= 1 {
        TrustLevel::L1Confirmed
    } else {
        TrustLevel::L0Registered
    }
}

/// Whole days from `created_at` to `now`, the quotient truncated toward zero.
pub open spec fn days_between(created_at: i64, now: i64) -> int {
    let d = now - created_at;
    if d >= 0 {
        d / (SECONDS_PER_DAY as int)
    } else {
        -((-d) / (SECONDS_PER_DAY as int))
    }
}

/// Maps an activity count and an age in days to a trust level.
pub fn calculate_trust_level(total_activities: u64, days_active: i64) -> (r: TrustLevel)
    ensures
        r == tier(total_activities, days_active),
{
    if days_active >= 30 && total_activities >= 100 {
        TrustLevel::L3Trusted
    } else if days_active >= 7 && total_activities >= 20 {
        TrustLevel::L2Active
    } else if total_activities >= 1 {
        TrustLevel::L1Confirmed
    } else {
        TrustLevel::L0Registered
    }
}

/// Whole days elapsed from `created_at` to `now`, truncated toward zero;
/// negative when `now` precedes `created_at`.
pub fn days_active(created_at: i64, now: i64) -> (r: i64)
    ensures
        r as int == days_between(created_at, now),
{
    let d: i128 = (now as i128) - (created_at as i128);
    if d >= 0 {
        let q: i128 = d / 86400;
        (q as i64)
    } else {
        let q: i128 = (-d) / 86400;
        (-q) as i64
    }
}

/// For a fixed activity count, the tier never drops as days pass; for a fixed
/// age, it never drops as activities accumulate.
pub proof fn lemma_tier_monotonic(t1: u64, t2: u64, d1: i64, d2: i64)
    requires
        t1 <= t2,
        d1 <= d2,
    ensures
        tier(t1, d1).rank() <= tier(t2, d2).rank(),
{
}

} // verus!
