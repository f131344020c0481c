//! The calendar entry: what is known of one item of a calendar before it is
//! written out in any calendar format.

use crate::time::FIRST_DAY;
use crate::time::LAST_DAY;
use crate::time::MAX_UTC_SECONDS;
use crate::time::MIN_UTC_SECONDS;
use crate::time::Timestamp;
use vstd::prelude::*;

verus! {

/// The start or the end of an entry: a whole day, by its number, or a second
/// of UTC. As an end it is the first day, or second, after the entry.
#[derive(Clone, Copy, Debug, PartialEq, Eq, Structural)]
pub enum EntryTime {
    Date(i32),
    Moment(i64),
}

impl EntryTime {
    /// The day is a date with a four-digit year or the day after the last
    /// such; the second is one that a valid instant can be, or the one after.
    pub open spec fn in_range(self) -> bool {
        match self {
            EntryTime::Date(day) => FIRST_DAY <= day <= LAST_DAY + 1,
            EntryTime::Moment(second) => MIN_UTC_SECONDS <= second <= MAX_UTC_SECONDS,
        }
    }

    /// Both are days or both are seconds, and `self` comes first.
    pub open spec fn before(self, other: EntryTime) -> bool {
        match (self, other) {
            (EntryTime::Date(first), EntryTime::Date(second)) => first < second,
            (EntryTime::Moment(first), EntryTime::Moment(second)) => first < second,
            _ => false,
        }
    }
}

/// What an entry says of the one occurrence it stands for.
#[derive(Debug)]
pub struct EntryDetail {
    pub url: String,
    pub cancelled: bool,
    pub location: String,
    pub geo: String,
}

/// What an `EntryDetail` holds, as plain text.
pub struct EntryDetailView {
    pub url: Seq<char>,
    pub cancelled: bool,
    pub location: Seq<char>,
    pub geo: Seq<char>,
}

impl View for EntryDetail {
    type V = EntryDetailView;

    open spec fn view(&self) -> EntryDetailView {
        EntryDetailView {
            url: self.url@,
            cancelled: self.cancelled,
            location: self.location@,
            geo: self.geo@,
        }
    }
}

/// One item of a calendar. An entry that sums up several occurrences has no
/// `detail`.
#[derive(Debug)]
pub struct CalendarEntry {
    pub uid: String,
    pub created: Timestamp,
    pub start: EntryTime,
    pub end: EntryTime,
    pub summary: String,
    pub description: String,
    pub detail: Option<EntryDetail>,
}

/// What a `CalendarEntry` holds, as plain text.
pub struct CalendarEntryView {
    pub uid: Seq<char>,
    pub created: Timestamp,
    pub start: EntryTime,
    pub end: EntryTime,
    pub summary: Seq<char>,
    pub description: Seq<char>,
    pub detail: Option<EntryDetailView>,
}

impl CalendarEntryView {
    /// The entry can be written out: its times are in range, and it starts
    /// before it ends.
    pub open spec fn wf(self) -> bool {
        &&& self.created.wf()
        &&& self.start.in_range()
        &&& self.end.in_range()
        &&& self.start.before(self.end)
    }
}

/// Every entry of `entries` can be written out.
pub open spec fn all_entries_wf(entries: Seq<CalendarEntryView>) -> bool {
    forall|i: int| 0 <= i < entries.len() ==> (#[trigger] entries[i]).wf()
}

impl View for CalendarEntry {
    type V = CalendarEntryView;

    open spec fn view(&self) -> CalendarEntryView {
        CalendarEntryView {
            uid: self.uid@,
            created: self.created,
            start: self.start,
            end: self.end,
            summary: self.summary@,
            description: self.description@,
            detail: match self.detail {
                Some(detail) => Some(detail@),
                None => None,
            },
        }
    }
}

/// The views of a sequence of entries.
pub open spec fn entry_views(entries: Seq<CalendarEntry>) -> Seq<CalendarEntryView> {
    entries.map_values(|e: CalendarEntry| e@)
}

} // verus!
