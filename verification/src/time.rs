//! Instants with a fixed offset from UTC, and the civil days they fall on.
//!
//! Days are numbered as in the proleptic Gregorian calendar, 0001-01-01 being
//! day 1. An instant is valid when its local date has a four-digit year, which
//! is what a calendar entry can carry.

use vstd::prelude::*;

verus! {

/// Seconds in one civil day.
pub const SECONDS_PER_DAY: i64 = 86_400;

/// The number of the day 1970-01-01.
pub const EPOCH_DAY: i64 = 719_163;

/// The number of the day 0001-01-01.
pub const FIRST_DAY: i32 = 1;

/// The number of the day 9999-12-31.
pub const LAST_DAY: i32 = 3_652_059;

/// Local seconds since the epoch at 0001-01-01T00:00:00.
pub const MIN_LOCAL_SECONDS: i64 = -62_135_596_800;

/// Local seconds since the epoch at 9999-12-31T23:59:59.
pub const MAX_LOCAL_SECONDS: i64 = 253_402_300_799;

/// The least second of UTC that a valid instant can be.
pub const MIN_UTC_SECONDS: i64 = -62_135_683_200;

/// The second of UTC after the greatest that a valid instant can be.
pub const MAX_UTC_SECONDS: i64 = 253_402_387_200;

/// The number of the day on which the local second `local_seconds` falls.
pub open spec fn day_of(local_seconds: int) -> int {
    local_seconds / 86_400 + 719_163
}

/// The local second with which day `day` begins.
pub open spec fn first_second_of(day: int) -> int {
    (day - 719_163) * 86_400
}

/// An instant, in whole seconds since 1970-01-01T00:00:00 UTC, together with
/// the offset of the local clock it was written in.
#[derive(Clone, Copy, Debug, PartialEq, Eq, Structural)]
pub struct Timestamp {
    /// Seconds since the epoch, in UTC.
    pub utc_seconds: i64,
    /// Seconds that the local clock is ahead of UTC.
    pub offset_seconds: i32,
}

impl Timestamp {
    /// Seconds since the epoch on the local clock.
    pub open spec fn local_seconds(self) -> int {
        self.utc_seconds + self.offset_seconds
    }

    /// The number of the local day.
    pub open spec fn day(self) -> int {
        day_of(self.local_seconds())
    }

    /// The offset is less than a day and the local date has a four-digit year.
    pub open spec fn wf(self) -> bool {
        &&& -86_400 < self.offset_seconds < 86_400
        &&& MIN_LOCAL_SECONDS <= self.local_seconds() <= MAX_LOCAL_SECONDS
    }

    /// The first second of the local day of `self`, on the same local clock.
    pub open spec fn day_start(self) -> Timestamp {
        Timestamp {
            utc_seconds: (first_second_of(self.day()) - self.offset_seconds) as i64,
            offset_seconds: self.offset_seconds,
        }
    }

    /// The last second of the local day of `self`, on the same local clock.
    pub open spec fn day_end(self) -> Timestamp {
        Timestamp {
            utc_seconds: (first_second_of(self.day()) + 86_399 - self.offset_seconds) as i64,
            offset_seconds: self.offset_seconds,
        }
    }

    /// A valid instant lies on a day from `FIRST_DAY` to `LAST_DAY`, between
    /// the first and the last second of that day.
    pub proof fn lemma_day_bounds(self)
        requires
            self.wf(),
        ensures
            FIRST_DAY <= self.day() <= LAST_DAY,
            first_second_of(self.day()) <= self.local_seconds() <= first_second_of(self.day())
                + 86_399,
            self.day_start().wf(),
            self.day_end().wf(),
            self.day_start().day() == self.day(),
            self.day_end().day() == self.day(),
            self.day_start().utc_seconds <= self.utc_seconds <= self.day_end().utc_seconds,
    {
    }

    /// The instant `utc_seconds` on a clock `offset_seconds` ahead of UTC, if
    /// that is a valid instant.
    pub fn new(utc_seconds: i64, offset_seconds: i32) -> (made: Option<Timestamp>)
        ensures
            made == if (Timestamp { utc_seconds, offset_seconds }).wf() {
                Some(Timestamp { utc_seconds, offset_seconds })
            } else {
                None
            },
    {
        let candidate = Timestamp { utc_seconds, offset_seconds };
        if candidate.is_valid() {
            Some(candidate)
        } else {
            None
        }
    }

    /// Whether `self` is a valid instant.
    pub fn is_valid(&self) -> (valid: bool)
        ensures
            valid == self.wf(),
    {
        if self.offset_seconds <= -86_400 || self.offset_seconds >= 86_400 {
            return false;
        }
        if self.utc_seconds < MIN_LOCAL_SECONDS - 86_400 || self.utc_seconds > MAX_LOCAL_SECONDS
            + 86_400 {
            return false;
        }
        let local: i64 = self.utc_seconds + self.offset_seconds as i64;
        MIN_LOCAL_SECONDS <= local && local <= MAX_LOCAL_SECONDS
    }

    /// The number of the local day.
    pub fn local_day(&self) -> (day: i32)
        requires
            self.wf(),
        ensures
            day == self.day(),
    {
        let local: i64 = self.utc_seconds + self.offset_seconds as i64;
        let since_first: i64 = local - MIN_LOCAL_SECONDS;
        let day: i64 = since_first / SECONDS_PER_DAY + 1;
        day as i32
    }

    /// The first second of the local day, on the same local clock.
    pub fn start_of_day(&self) -> (start: Timestamp)
        requires
            self.wf(),
        ensures
            start == self.day_start(),
    {
        let day: i64 = self.local_day() as i64;
        Timestamp {
            utc_seconds: (day - EPOCH_DAY) * SECONDS_PER_DAY - self.offset_seconds as i64,
            offset_seconds: self.offset_seconds,
        }
    }

    /// The last second of the local day, on the same local clock.
    pub fn end_of_day(&self) -> (end: Timestamp)
        requires
            self.wf(),
        ensures
            end == self.day_end(),
    {
        let day: i64 = self.local_day() as i64;
        Timestamp {
            utc_seconds: (day - EPOCH_DAY) * SECONDS_PER_DAY + 86_399 - self.offset_seconds as i64,
            offset_seconds: self.offset_seconds,
        }
    }
}

/// What `chrono::NaiveDate` shows for the day numbered `day`: year, month and
/// day of the month with hyphens between them.
pub uninterp spec fn iso_date_text(day: int) -> Seq<char>;

/// `NaiveDate::from_num_days_from_ce_opt` and the date's `to_string`: the
/// text that chrono displays for the day numbered `day`. Every day from
/// `FIRST_DAY` to the one after `LAST_DAY` is a date that chrono can hold.
#[verifier::external_body]
pub(crate) fn iso_date(day: i32) -> (text: String)
    requires
        FIRST_DAY <= day <= LAST_DAY + 1,
    ensures
        text@ == iso_date_text(day as int),
{
    chrono::NaiveDate::from_num_days_from_ce_opt(day).unwrap().to_string()
}

} // verus!
