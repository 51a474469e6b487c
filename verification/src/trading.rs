//! Trading schedules: for a given timestamp, whether a strategy should trade
//! at it.
//!
//! The civil-calendar reading of a timestamp (day of month, weekday, month)
//! is delegated to the `time` crate; the decision rule over those parts is
//! the module's own and verified.

use vstd::prelude::*;

verus! {

/// Whether the timestamp lies in the range the civil-calendar conversion
/// accepts.
pub uninterp spec fn civil_in_range(ts: i64) -> bool;

/// The day of month (1 to 31) of the timestamp, read in UTC.
pub uninterp spec fn civil_day_of(ts: i64) -> u8;

/// The weekday of the timestamp, read in UTC: 1 is Monday, 7 is Sunday.
pub uninterp spec fn civil_weekday_of(ts: i64) -> u8;

/// The month (1 to 12) of the timestamp, read in UTC.
pub uninterp spec fn civil_month_of(ts: i64) -> u8;

/// Relies on `time::OffsetDateTime::from_unix_timestamp` and its `day`,
/// `weekday` and `month` accessors: the civil date of a unix timestamp in
/// UTC, a function of the timestamp alone, with `Err` exactly when the
/// timestamp falls outside the range the crate supports.
#[verifier::external_body]
fn civil_parts(ts: i64) -> (r: Option<(u8, u8, u8)>)
    ensures
        (r is Some) == civil_in_range(ts),
        r matches Some(p) ==> p.0 == civil_day_of(ts) && p.1 == civil_weekday_of(ts) && p.2
            == civil_month_of(ts),
{
    match time::OffsetDateTime::from_unix_timestamp(ts) {
        Ok(t) => Some((t.day(), t.weekday().number_from_monday(), u8::from(t.month()))),
        Err(_) => None,
    }
}

/// Whether a weekday number (1 is Monday) falls on the weekend.
pub open spec fn is_weekend(w: u8) -> bool {
    w == 6 || w == 7
}

/// Whether the day `i` days after `date` is no business day of `date`'s
/// month: it parses and is a weekend day or belongs to another month.
pub open spec fn offset_leaves_month(date: i64, i: int) -> bool {
    let ts = (date + i * 86400) as i64;
    &&& civil_in_range(ts)
    &&& (is_weekend(civil_weekday_of(ts)) || civil_month_of(ts) != civil_month_of(date))
}

/// The last business day of a month: a weekday in the month's final stretch
/// (day 21 or later) that no later business day of the same month follows
/// within three days. Timestamps the calendar cannot read, and ones so close
/// to the end of the representable range that the three look-ahead days
/// cannot be formed, are not trading days.
pub open spec fn last_business_day_spec(date: i64) -> bool {
    &&& civil_in_range(date)
    &&& civil_day_of(date) >= 21
    &&& !is_weekend(civil_weekday_of(date))
    &&& date + 3 * 86400 <= i64::MAX
    &&& forall|i: int| 1 <= i <= 3 ==> offset_leaves_month(date, i)
}

/// Decides for each timestamp whether to trade at it.
pub trait TradingSchedule {
    fn should_trade(date: &i64) -> bool;
}

/// Trades at every timestamp.
#[derive(Debug)]
pub struct DefaultTradingSchedule;

impl TradingSchedule for DefaultTradingSchedule {
    fn should_trade(_date: &i64) -> bool {
        true
    }
}

/// Trades only on the last business day of a month.
#[derive(Debug)]
pub struct LastBusinessDayTradingSchedule;

impl LastBusinessDayTradingSchedule {
    /// Whether the date is the last business day of its month, per
    /// [`last_business_day_spec`].
    #[verifier::loop_isolation(false)]
    pub fn decide(date: i64) -> (r: bool)
        ensures
            r == last_business_day_spec(date),
    {
        match civil_parts(date) {
            None => false,
            Some((day, weekday, month)) => {
                if day < 21 {
                    // Cannot be the last business day more than a week
                    // before the minimum number of days in a month.
                    return false;
                }
                if weekday == 6 || weekday == 7 {
                    return false;
                }
                if date > i64::MAX - 3 * 86400 {
                    return false;
                }
                // Each of the next three days must leave the month or fall
                // on a weekend; a weekday of the same month among them means
                // a later business day exists.
                let mut i: i64 = 1;
                while i < 4
                    invariant
                        1 <= i <= 4,
                        forall|k: int| 1 <= k < i ==> offset_leaves_month(date, k),
                    decreases 4 - i,
                {
                    match civil_parts(date + i * 86400) {
                        None => {
                            proof {
                                assert(!offset_leaves_month(date, i as int));
                            }
                            return false;
                        },
                        Some((_day2, weekday2, month2)) => {
                            if weekday2 == 6 || weekday2 == 7 {
                            } else if month2 == month {
                                proof {
                                    assert(!offset_leaves_month(date, i as int));
                                }
                                return false;
                            }
                        },
                    }
                    i = i + 1;
                }
                true
            },
        }
    }
}

impl TradingSchedule for LastBusinessDayTradingSchedule {
    fn should_trade(date: &i64) -> bool {
        LastBusinessDayTradingSchedule::decide(*date)
    }
}

} // verus!
