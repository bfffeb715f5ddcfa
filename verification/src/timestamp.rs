//! Timestamps and calendar dates.
//!
//! The model of a point in time is its unix timestamp in whole seconds.
//! Staleness is measured in whole days: the floor of the elapsed seconds
//! divided by the seconds of a day. Rendering a timestamp as a calendar date
//! is the one computation left to an outside crate, behind a trusted wrapper.

use vstd::arithmetic::div_mod::lemma_fundamental_div_mod;
use vstd::arithmetic::div_mod::lemma_fundamental_div_mod_converse;
use vstd::prelude::*;

verus! {

/// The last second of year 9999, the latest timestamp the library accepts.
pub const MAX_TIMESTAMP: i64 = 253402300799;

pub const SECONDS_PER_DAY: i64 = 86400;

/// Whole days from `ts` to `now`, rounded toward minus infinity.
pub open spec fn spec_days_between(now: i64, ts: i64) -> int {
    (now - ts) / (SECONDS_PER_DAY as int)
}

pub open spec fn ts_in_range(ts: i64) -> bool {
    0 <= ts <= MAX_TIMESTAMP
}

/// Whole days elapsed between two timestamps; negative when `ts` lies after
/// `now`.
pub fn days_between(now: i64, ts: i64) -> (r: i64)
    requires
        ts_in_range(ts),
        ts_in_range(now),
    ensures
        r == spec_days_between(now, ts),
{
    if now >= ts {
        let d: u64 = ((now - ts) as u64) / 86400;
        proof {
            lemma_fundamental_div_mod((now - ts) as int, 86400);
        }
        d as i64
    } else {
        let behind: u64 = (ts - now) as u64;
        let up: u64 = (behind + 86399) / 86400;
        proof {
            let x: int = (now - ts) as int;
            let q: int = -(up as int);
            lemma_fundamental_div_mod((behind + 86399) as int, 86400);
            let rem: int = (up as int) * 86400 - (behind as int);
            assert(0 <= rem < 86400);
            assert(x == q * 86400 + rem) by (nonlinear_arith)
                requires
                    x == -(behind as int),
                    q == -(up as int),
                    rem == (up as int) * 86400 - (behind as int),
            ;
            lemma_fundamental_div_mod_converse(x, 86400, q, rem);
        }
        -((up) as i64)
    }
}

/// What chrono renders for a timestamp with the zero-padded
/// year-month-day format: a function of the timestamp alone.
pub uninterp spec fn date_str_of(ts: int) -> Seq<char>;

/// Relies on chrono's `DateTime::from_timestamp` and its `%Y-%m-%d` format:
/// for an in-range timestamp the parse succeeds and the rendered calendar
/// date depends on the timestamp alone.
#[verifier::external_body]
pub fn format_date(ts: i64) -> (r: String)
    requires
        ts_in_range(ts),
    ensures
        r@ == date_str_of(ts as int),
{
    let dt = chrono::DateTime::<chrono::Utc>::from_timestamp(ts, 0).unwrap();
    dt.format("%Y-%m-%d").to_string()
}

} // verus!
