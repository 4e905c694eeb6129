//! Admission control: pure read-then-compare checks of externally supplied
//! aggregates against tier-derived ceilings, and the UTC calendar-day window
//! that "today" means. The caller reads today's count and the active count
//! from the repository and re-checks just before enqueueing; two concurrent
//! submissions may both pass, an accepted best-effort race.
use vstd::prelude::*;
use crate::config::QuotaConfig;
use crate::strutil::str_eq;

verus! {

/// A user's subscription class; unknown classes are not limited.
pub enum Tier {
    Free,
    Pro,
    Other,
}

/// The tier a subscription string names.
pub open spec fn spec_parse_tier(s: Seq<char>) -> Tier {
    if s == "free"@ {
        Tier::Free
    } else if s == "pro"@ {
        Tier::Pro
    } else {
        Tier::Other
    }
}

impl Tier {
    /// Read a tier tag.
    pub fn parse(s: &str) -> (t: Tier)
        ensures
            t == spec_parse_tier(s@),
    {
        if str_eq(s, "free") {
            Tier::Free
        } else if str_eq(s, "pro") {
            Tier::Pro
        } else {
            Tier::Other
        }
    }
}

/// The kind a daily quota is counted by; kinds with no configured ceiling are
/// unlimited.
pub enum QuotaKind {
    Image,
    Video,
    Other,
}

/// The quota kind a job-kind string names.
pub open spec fn spec_parse_quota_kind(s: Seq<char>) -> QuotaKind {
    if s == "image"@ {
        QuotaKind::Image
    } else if s == "video"@ {
        QuotaKind::Video
    } else {
        QuotaKind::Other
    }
}

impl QuotaKind {
    /// Read a quota-kind tag.
    pub fn parse(s: &str) -> (k: QuotaKind)
        ensures
            k == spec_parse_quota_kind(s@),
    {
        if str_eq(s, "image") {
            QuotaKind::Image
        } else if str_eq(s, "video") {
            QuotaKind::Video
        } else {
            QuotaKind::Other
        }
    }
}

/// An admission refusal, with the aggregate that tripped it and the ceiling.
#[derive(Debug)]
pub enum QuotaError {
    Exceeded { count: i64, limit: i64 },
}

/// The daily ceiling of a (tier, kind) pair; `None` is unlimited. Free-tier
/// image and video jobs and pro-tier video jobs are capped; everything else
/// is not.
pub open spec fn spec_daily_limit(q: QuotaConfig, tier: Tier, kind: QuotaKind) -> Option<int> {
    match tier {
        Tier::Free => match kind {
            QuotaKind::Image => Some(q.free_tier_image_daily as int),
            QuotaKind::Video => Some(q.free_tier_video_daily as int),
            QuotaKind::Other => None,
        },
        Tier::Pro => match kind {
            QuotaKind::Video => Some(q.pro_tier_video_daily as int),
            _ => None,
        },
        Tier::Other => None,
    }
}

/// The concurrency ceiling of a tier; `None` is unlimited.
pub open spec fn spec_concurrent_limit(q: QuotaConfig, tier: Tier) -> Option<int> {
    match tier {
        Tier::Free => Some(q.free_tier_concurrent as int),
        Tier::Pro => Some(q.pro_tier_concurrent as int),
        Tier::Other => None,
    }
}

/// Check today's job count of this kind against the tier's daily ceiling.
/// Admitted exactly when the count is below the ceiling (or no ceiling is
/// configured); read-only, so the caller re-checks just before enqueue.
pub fn check_quota(q: &QuotaConfig, count: i64, tier: &str, job_kind: &str) -> (r: Result<
    (),
    QuotaError,
>)
    ensures
        match spec_daily_limit(*q, spec_parse_tier(tier@), spec_parse_quota_kind(job_kind@)) {
            None => r is Ok,
            Some(l) => (r is Ok <==> count < l) && (r matches Err(e) ==> e == (QuotaError::Exceeded {
                count,
                limit: l as i64,
            })),
        },
{
    let t = Tier::parse(tier);
    let k = QuotaKind::parse(job_kind);
    let limit: Option<u32> = match t {
        Tier::Free => match k {
            QuotaKind::Image => Some(q.free_tier_image_daily),
            QuotaKind::Video => Some(q.free_tier_video_daily),
            QuotaKind::Other => None,
        },
        Tier::Pro => match k {
            QuotaKind::Video => Some(q.pro_tier_video_daily),
            _ => None,
        },
        Tier::Other => None,
    };
    match limit {
        None => Ok(()),
        Some(l) => {
            if count >= l as i64 {
                Err(QuotaError::Exceeded { count, limit: l as i64 })
            } else {
                Ok(())
            }
        },
    }
}

/// Check the user's active (queued or processing) job count against the
/// tier's concurrency ceiling. Admitted exactly when the count is below the
/// ceiling (or no ceiling is configured).
pub fn check_concurrent(q: &QuotaConfig, active: i64, tier: &str) -> (r: Result<(), QuotaError>)
    ensures
        match spec_concurrent_limit(*q, spec_parse_tier(tier@)) {
            None => r is Ok,
            Some(l) => (r is Ok <==> active < l) && (r matches Err(e) ==> e == (QuotaError::Exceeded {
                count: active,
                limit: l as i64,
            })),
        },
{
    let t = Tier::parse(tier);
    let limit: Option<u32> = match t {
        Tier::Free => Some(q.free_tier_concurrent),
        Tier::Pro => Some(q.pro_tier_concurrent),
        Tier::Other => None,
    };
    match limit {
        None => Ok(()),
        Some(l) => {
            if active >= l as i64 {
                Err(QuotaError::Exceeded { count: active, limit: l as i64 })
            } else {
                Ok(())
            }
        },
    }
}

/// The UTC calendar day a timestamp (seconds since the epoch) falls in; the
/// window boundary is 00:00:00 UTC, so adjacent seconds across midnight
/// count against different windows.
pub open spec fn spec_day_index(ts: int) -> int {
    ts / 86400
}

/// The UTC day index of a timestamp.
pub fn utc_day_index(ts: i64) -> (d: i64)
    ensures
        d == spec_day_index(ts as int),
{
    if ts >= 0 {
        proof {
            vstd::arithmetic::div_mod::lemma_fundamental_div_mod(ts as u64 as int, 86400);
        }
        ((ts as u64) / 86400) as i64
    } else {
        let n: u64 = (-(ts as i128)) as u64;
        let q: u64 = (n + 86399) / 86400;
        proof {
            vstd::arithmetic::div_mod::lemma_fundamental_div_mod(n as int, 86400);
            vstd::arithmetic::div_mod::lemma_mod_division_less_than_divisor(n as int, 86400);
            let a = (n as int) / 86400;
            let b = (n as int) % 86400;
            if b == 0 {
                vstd::arithmetic::div_mod::lemma_fundamental_div_mod_converse_div(
                    n as int + 86399,
                    86400,
                    a,
                    86399,
                );
                vstd::arithmetic::div_mod::lemma_fundamental_div_mod_converse_div(
                    ts as int,
                    86400,
                    -a,
                    0,
                );
            } else {
                vstd::arithmetic::div_mod::lemma_fundamental_div_mod_converse_div(
                    n as int + 86399,
                    86400,
                    a + 1,
                    b - 1,
                );
                vstd::arithmetic::div_mod::lemma_fundamental_div_mod_converse_div(
                    ts as int,
                    86400,
                    -a - 1,
                    86400 - b,
                );
            }
        }
        -((q) as i64)
    }
}

/// Two timestamps count against the same daily window exactly when they fall
/// in the same UTC calendar day.
pub fn same_utc_day(a: i64, b: i64) -> (r: bool)
    ensures
        r == (spec_day_index(a as int) == spec_day_index(b as int)),
{
    utc_day_index(a) == utc_day_index(b)
}

/// The first second (00:00:00 UTC) of the day a timestamp falls in; the
/// repository counts "today's" jobs from this boundary.
pub fn day_start(ts: i64) -> (s: i64)
    requires
        ts >= i64::MIN + 86400,
    ensures
        s == spec_day_index(ts as int) * 86400,
        s <= ts,
        ts - s < 86400,
{
    let d = utc_day_index(ts);
    proof {
        vstd::arithmetic::div_mod::lemma_fundamental_div_mod(ts as int, 86400);
        vstd::arithmetic::div_mod::lemma_mod_division_less_than_divisor(ts as int, 86400);
        assert(86400 * ((ts as int) / 86400) == ((ts as int) / 86400) * 86400) by (nonlinear_arith);
    }
    d * 86400
}

} // verus!
