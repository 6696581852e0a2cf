//! Epoch-aware timestamp conversion: the two history formats count
//! microseconds from incompatible zero points (1601-01-01 and 1970-01-01),
//! and a range of two timestamps becomes two display dates and a day span.

use vstd::prelude::*;

verus! {

/// The zero point a source's integer timestamps are counted from.
#[derive(Clone, Copy, PartialEq, Eq, Structural, Debug)]
pub enum Epoch {
    /// Microseconds since 1601-01-01T00:00:00Z.
    Webkit,
    /// Microseconds since 1970-01-01T00:00:00Z.
    Unix,
}

/// The largest timestamp `date_range` accepts: high enough for any real
/// history row, low enough that the instant stays within chrono's
/// representable years.
pub const MAX_TIMESTAMP_MICROS: i64 = 7_900_000_000_000_000_000;

/// The smallest timestamp `date_range` accepts: a pre-epoch instant, again
/// bounded only by chrono's representable years.
pub const MIN_TIMESTAMP_MICROS: i64 = -7_900_000_000_000_000_000;

pub const MICROS_PER_SECOND: i64 = 1_000_000;

pub const MICROS_PER_DAY: i64 = 86_400_000_000;

/// The "Month D, Year" rendering of the instant `secs` seconds after the
/// Unix epoch (when `unix_epoch` is set) or after 1601-01-01 (when not).
pub uninterp spec fn date_text(unix_epoch: bool, secs: int) -> Seq<char>;

/// Relies on `chrono::DateTime::parse_from_rfc3339` (of a constant base
/// date), `chrono::Duration::seconds`, `Duration` addition, and `%B %-d, %Y`
/// formatting: the rendered date is a function of the epoch flag and the
/// second count alone, and the bounded seconds keep the sum inside
/// chrono's representable range.
#[verifier::external_body]
fn format_epoch_secs(unix_epoch: bool, secs: i64) -> (r: String)
    requires
        -7_900_000_000_000 <= secs <= 7_900_000_000_000,
    ensures
        r@ == date_text(unix_epoch, secs as int),
{
    let base = if unix_epoch { "1970-01-01T00:00:00Z" } else { "1601-01-01T00:00:00Z" };
    let dt = chrono::DateTime::parse_from_rfc3339(base).unwrap().with_timezone(&chrono::Utc)
        + chrono::Duration::seconds(secs);
    dt.format("%B %-d, %Y").to_string()
}

/// The day number (days since 1970-01-01) of the calendar date written in
/// `s` as "Month D, Year", or `None` when `s` does not parse so.
pub uninterp spec fn date_day_number(s: Seq<char>) -> Option<int>;

/// Relies on `chrono::NaiveDate::parse_from_str` with `%B %d, %Y` (retried
/// non-padded, as the range formatter writes days) and
/// `NaiveDate::signed_duration_since`: the recovered day number is a
/// function of the text alone, and chrono's representable years keep it
/// within a hundred million days of the epoch.
#[verifier::external_body]
pub(crate) fn parse_display_date(s: &str) -> (r: Option<i64>)
    ensures
        r matches Some(d) ==> date_day_number(s@) == Some(d as int) && -100_000_000 <= d
            <= 100_000_000,
        r is None ==> date_day_number(s@) is None,
{
    let parsed = chrono::NaiveDate::parse_from_str(s, "%B %d, %Y")
        .or_else(|_| chrono::NaiveDate::parse_from_str(s, "%B %-d, %Y"));
    match parsed {
        Ok(d) => {
            let epoch = chrono::NaiveDate::from_ymd_opt(1970, 1, 1).unwrap();
            Some(d.signed_duration_since(epoch).num_days())
        },
        Err(_) => None,
    }
}

/// Euclidean division of a timestamp by a positive scale: rounds toward
/// negative infinity, as the calendar conversion needs for pre-epoch
/// instants.
fn div_floor(a: i64, d: u64) -> (q: i64)
    requires
        2 <= d <= i64::MAX as u64,
    ensures
        q as int == (a as int) / (d as int),
{
    if a >= 0 {
        proof {
            vstd::arithmetic::div_mod::lemma_div_nonincreasing(a as int, d as int);
            vstd::arithmetic::div_mod::lemma_div_pos_is_pos(a as int, d as int);
        }
        ((a as u64) / d) as i64
    } else {
        let na = (-(a + 1)) as u64;
        let q1 = na / d;
        proof {
            vstd::arithmetic::div_mod::lemma_fundamental_div_mod(na as int, d as int);
            let r1 = (na as int) % (d as int);
            assert(a as int == (-(q1 as int) - 1) * (d as int) + ((d as int) - r1 - 1))
                by (nonlinear_arith)
                requires
                    na as int == (d as int) * ((na as int) / (d as int)) + r1,
                    q1 as int == (na as int) / (d as int),
                    a as int == -(na as int) - 1,
            ;
            vstd::arithmetic::div_mod::lemma_fundamental_div_mod_converse_div(
                a as int,
                d as int,
                -(q1 as int) - 1,
                (d as int) - r1 - 1,
            );
            vstd::arithmetic::div_mod::lemma_div_is_ordered_by_denominator(na as int, 2, d as int);
            vstd::arithmetic::div_mod::lemma_div_is_ordered(na as int, i64::MAX as int, 2);
        }
        -((q1 as i64) + 1)
    }
}

/// Converts a queried (min, max) timestamp pair into two display dates and
/// the whole-day span between them.  An absent bound gives the "no data"
/// sentinel with span 0.  The two epochs are never conflated: the caller
/// names the source's epoch and both bounds convert under it.
pub fn date_range(min_ts: Option<i64>, max_ts: Option<i64>, epoch: Epoch) -> (r: (
    String,
    String,
    i64,
))
    requires
        (min_ts is Some && max_ts is Some) ==> MIN_TIMESTAMP_MICROS <= min_ts->Some_0
            <= max_ts->Some_0 <= MAX_TIMESTAMP_MICROS,
    ensures
        (min_ts is None || max_ts is None) ==> r.0@ == "No data available"@ && r.1@
            == "No data available"@ && r.2 == 0,
        (min_ts is Some && max_ts is Some) ==> {
            &&& r.0@ == date_text(
                epoch == Epoch::Unix,
                (min_ts->Some_0 as int) / (MICROS_PER_SECOND as int),
            )
            &&& r.1@ == date_text(
                epoch == Epoch::Unix,
                (max_ts->Some_0 as int) / (MICROS_PER_SECOND as int),
            )
            &&& r.2 as int == (max_ts->Some_0 - min_ts->Some_0) / (MICROS_PER_DAY as int)
        },
{
    match (min_ts, max_ts) {
        (Some(a), Some(b)) => {
            let unix = epoch == Epoch::Unix;
            proof {
                vstd::arithmetic::div_mod::lemma_div_is_ordered(
                    a as int,
                    MAX_TIMESTAMP_MICROS as int,
                    MICROS_PER_SECOND as int,
                );
                vstd::arithmetic::div_mod::lemma_div_is_ordered(
                    b as int,
                    MAX_TIMESTAMP_MICROS as int,
                    MICROS_PER_SECOND as int,
                );
                vstd::arithmetic::div_mod::lemma_div_is_ordered(
                    MIN_TIMESTAMP_MICROS as int,
                    a as int,
                    MICROS_PER_SECOND as int,
                );
                vstd::arithmetic::div_mod::lemma_div_is_ordered(
                    MIN_TIMESTAMP_MICROS as int,
                    b as int,
                    MICROS_PER_SECOND as int,
                );
                vstd::arithmetic::div_mod::lemma_div_is_ordered(
                    (b - a) as int,
                    (MAX_TIMESTAMP_MICROS as int) - (MIN_TIMESTAMP_MICROS as int),
                    MICROS_PER_DAY as int,
                );
                vstd::arithmetic::div_mod::lemma_div_pos_is_pos(
                    (b - a) as int,
                    MICROS_PER_DAY as int,
                );
            }
            let first_secs = div_floor(a, MICROS_PER_SECOND as u64);
            let last_secs = div_floor(b, MICROS_PER_SECOND as u64);
            let diff = ((b as i128) - (a as i128)) as u128;
            let days = (diff / (MICROS_PER_DAY as u128)) as i64;
            let first = format_epoch_secs(unix, first_secs);
            let last = format_epoch_secs(unix, last_secs);
            (first, last, days)
        },
        _ => {
            (
                String::from_str("No data available"),
                String::from_str("No data available"),
                0,
            )
        },
    }
}

} // verus!
