//! Calendar entries written out as an iCalendar text.
//!
//! The text is made by the `icalendar` crate. What is proved here is what each
//! entry hands to it: which properties, with which values.

use crate::entry::CalendarEntry;
use crate::entry::CalendarEntryView;
use crate::entry::EntryDetailView;
use crate::entry::EntryTime;
use crate::entry::all_entries_wf;
use crate::entry::entry_views;
use crate::time::FIRST_DAY;
use crate::time::LAST_DAY;
use crate::time::MAX_UTC_SECONDS;
use crate::time::MIN_UTC_SECONDS;
use crate::time::Timestamp;
use chrono::TimeZone;
use icalendar::Component;
use vstd::prelude::*;
use vstd::string::*;

verus! {

#[verifier::external_type_specification]
#[verifier::external_body]
pub struct ExEvent(icalendar::Event);

/// A calendar of the `icalendar` crate.
#[verifier::external_body]
pub struct IcalCalendar {
    inner: icalendar::Calendar,
}

/// A property of an event: its value as it is stored, and whether it is
/// marked as a value of type DATE. A property has no other parameter here.
pub type Property = (Seq<char>, bool);

/// The properties of an event, by name.
pub type Properties = Map<Seq<char>, Property>;

/// The properties that `event` holds. An event that was made by `Event::new`
/// and has been given properties by `Component`'s methods for single
/// properties holds nothing else.
pub uninterp spec fn event_properties(event: icalendar::Event) -> Properties;

/// The events that `calendar` holds, each by its properties, in the order
/// in which they were pushed.
pub uninterp spec fn calendar_events(calendar: IcalCalendar) -> Seq<Properties>;

/// The text that `icalendar` writes for a calendar of `events`, each of which
/// has a UID and a DTSTAMP.
pub uninterp spec fn calendar_text(events: Seq<Properties>) -> Seq<char>;

/// The date of the day numbered `day` in chrono's format `%Y%m%d`.
pub uninterp spec fn compact_date_text(day: int) -> Seq<char>;

/// The second `utc_seconds` of UTC in chrono's format `%Y%m%dT%H%M%SZ`.
pub uninterp spec fn utc_stamp_text(utc_seconds: int) -> Seq<char>;

/// The second `utc_seconds` of UTC on a clock `offset_seconds` ahead of UTC,
/// in chrono's format `%Y%m%dT%H%M%S`.
pub uninterp spec fn local_stamp_text(utc_seconds: int, offset_seconds: int) -> Seq<char>;

/// `value` as a property stores it: each line feed is written as a backslash
/// and the letter n.
pub open spec fn stored(value: Seq<char>) -> Seq<char>
    decreases value.len(),
{
    if value.len() == 0 {
        Seq::empty()
    } else {
        stored(value.drop_last()) + (if value.last() == '\n' {
            seq!['\\', 'n']
        } else {
            seq![value.last()]
        })
    }
}

/// No properties.
pub open spec fn no_properties() -> Properties {
    Map::empty()
}

/// `Event::new`: an event without properties.
#[verifier::external_body]
fn new_event() -> (event: icalendar::Event)
    ensures
        event_properties(event) == no_properties(),
{
    icalendar::Event::new()
}

/// `Component::add_property` on an event: the property `key` gets the value
/// `value`, stored with its line feeds escaped, in the place of any that the
/// event had under that name.
#[verifier::external_body]
fn add_property(event: &mut icalendar::Event, key: &str, value: &str)
    ensures
        event_properties(*final(event)) == event_properties(*old(event)).insert(
            key@,
            (stored(value@), false),
        ),
{
    event.add_property(key, value);
}

/// `Component::uid` on an event: `add_property` for the name UID.
#[verifier::external_body]
fn set_uid(event: &mut icalendar::Event, uid: &str)
    ensures
        event_properties(*final(event)) == event_properties(*old(event)).insert(
            "UID"@,
            (stored(uid@), false),
        ),
{
    event.uid(uid);
}

/// `Component::summary` on an event: `add_property` for the name SUMMARY.
#[verifier::external_body]
fn set_summary(event: &mut icalendar::Event, summary: &str)
    ensures
        event_properties(*final(event)) == event_properties(*old(event)).insert(
            "SUMMARY"@,
            (stored(summary@), false),
        ),
{
    event.summary(summary);
}

/// `Component::description` on an event: `add_property` for the name
/// DESCRIPTION.
#[verifier::external_body]
fn set_description(event: &mut icalendar::Event, description: &str)
    ensures
        event_properties(*final(event)) == event_properties(*old(event)).insert(
            "DESCRIPTION"@,
            (stored(description@), false),
        ),
{
    event.description(description);
}

/// `Component::location` on an event: `add_property` for the name LOCATION.
#[verifier::external_body]
fn set_location(event: &mut icalendar::Event, location: &str)
    ensures
        event_properties(*final(event)) == event_properties(*old(event)).insert(
            "LOCATION"@,
            (stored(location@), false),
        ),
{
    event.location(location);
}

/// `Component::start_date` on an event, with the day numbered `day` as a
/// date of UTC: the property DTSTART gets the date in the format `%Y%m%d`,
/// marked as a DATE. Every `day` admitted is a date that chrono can hold.
#[verifier::external_body]
#[allow(deprecated)]
fn set_start_date(event: &mut icalendar::Event, day: i32)
    requires
        FIRST_DAY <= day <= LAST_DAY + 1,
    ensures
        event_properties(*final(event)) == event_properties(*old(event)).insert(
            "DTSTART"@,
            (stored(compact_date_text(day as int)), true),
        ),
{
    let date = chrono::NaiveDate::from_num_days_from_ce_opt(day).unwrap();
    event.start_date(chrono::Utc.from_utc_date(&date));
}

/// `Component::end_date` on an event, with the day numbered `day` as a date
/// of UTC: the property DTEND gets the date in the format `%Y%m%d`, marked as
/// a DATE. Every `day` admitted is a date that chrono can hold.
#[verifier::external_body]
#[allow(deprecated)]
fn set_end_date(event: &mut icalendar::Event, day: i32)
    requires
        FIRST_DAY <= day <= LAST_DAY + 1,
    ensures
        event_properties(*final(event)) == event_properties(*old(event)).insert(
            "DTEND"@,
            (stored(compact_date_text(day as int)), true),
        ),
{
    let date = chrono::NaiveDate::from_num_days_from_ce_opt(day).unwrap();
    event.end_date(chrono::Utc.from_utc_date(&date));
}

/// `Component::starts` on an event, with the second `utc_seconds` of UTC:
/// the property DTSTART gets that second in the format `%Y%m%dT%H%M%SZ`.
/// Every second admitted is one that chrono can hold.
#[verifier::external_body]
fn set_starts(event: &mut icalendar::Event, utc_seconds: i64)
    requires
        MIN_UTC_SECONDS <= utc_seconds <= MAX_UTC_SECONDS,
    ensures
        event_properties(*final(event)) == event_properties(*old(event)).insert(
            "DTSTART"@,
            (stored(utc_stamp_text(utc_seconds as int)), false),
        ),
{
    event.starts(chrono::DateTime::from_timestamp(utc_seconds, 0).unwrap());
}

/// `Component::ends` on an event, with the second `utc_seconds` of UTC: the
/// property DTEND gets that second in the format `%Y%m%dT%H%M%SZ`. Every
/// second admitted is one that chrono can hold.
#[verifier::external_body]
fn set_ends(event: &mut icalendar::Event, utc_seconds: i64)
    requires
        MIN_UTC_SECONDS <= utc_seconds <= MAX_UTC_SECONDS,
    ensures
        event_properties(*final(event)) == event_properties(*old(event)).insert(
            "DTEND"@,
            (stored(utc_stamp_text(utc_seconds as int)), false),
        ),
{
    event.ends(chrono::DateTime::from_timestamp(utc_seconds, 0).unwrap());
}

/// `DateTime::format` with `%Y%m%dT%H%M%S` on the instant `stamp` in its own
/// offset: date and time on the local clock. A valid instant and its offset
/// are ones that chrono can hold.
#[verifier::external_body]
fn format_stamp(stamp: &Timestamp) -> (text: String)
    requires
        stamp.wf(),
    ensures
        text@ == local_stamp_text(stamp.utc_seconds as int, stamp.offset_seconds as int),
{
    let offset = chrono::FixedOffset::east_opt(stamp.offset_seconds).unwrap();
    let instant = chrono::DateTime::from_timestamp(stamp.utc_seconds, 0).unwrap();
    instant.with_timezone(&offset).format("%Y%m%dT%H%M%S").to_string()
}

/// `Calendar::new`: a calendar without events.
#[verifier::external_body]
fn new_calendar() -> (calendar: IcalCalendar)
    ensures
        calendar_events(calendar) == Seq::<Properties>::empty(),
{
    IcalCalendar { inner: icalendar::Calendar::new() }
}

/// `Calendar::push` with an event: the event comes behind those that the
/// calendar holds.
#[verifier::external_body]
fn push_event(calendar: &mut IcalCalendar, event: icalendar::Event)
    ensures
        calendar_events(*final(calendar)) == calendar_events(*old(calendar)).push(
            event_properties(event),
        ),
{
    calendar.inner.push(event);
}

/// The `to_string` of a calendar: the text of the calendar. An event
/// without DTSTAMP or UID would be given the time of day or a random
/// identifier, so each event has to have both.
#[verifier::external_body]
fn calendar_to_string(calendar: &IcalCalendar) -> (text: String)
    requires
        forall|i: int|
            0 <= i < calendar_events(*calendar).len() ==> (#[trigger] calendar_events(
                *calendar,
            )[i]).contains_key("UID"@) && calendar_events(*calendar)[i].contains_key("DTSTAMP"@),
    ensures
        text@ == calendar_text(calendar_events(*calendar)),
{
    calendar.inner.to_string()
}

/// The properties after the time of creation `created` has been set.
pub open spec fn with_dtstamp(properties: Properties, created: Timestamp) -> Properties {
    properties.insert(
        "DTSTAMP"@,
        (stored(local_stamp_text(created.utc_seconds as int, created.offset_seconds as int)), false),
    )
}

/// Sets the time of creation of `ical_event`: date and time on the local
/// clock of `created`.
pub fn set_dtstamp(ical_event: &mut icalendar::Event, created: &Timestamp)
    requires
        created.wf(),
    ensures
        event_properties(*final(ical_event)) == with_dtstamp(
            event_properties(*old(ical_event)),
            *created,
        ),
{
    let uploaded_on_str = format_stamp(created);
    add_property(ical_event, "DTSTAMP", uploaded_on_str.as_str());
}

/// The value of the property that holds time `time`.
pub open spec fn time_property(time: EntryTime) -> Property {
    match time {
        EntryTime::Date(day) => (stored(compact_date_text(day as int)), true),
        EntryTime::Moment(second) => (stored(utc_stamp_text(second as int)), false),
    }
}

/// The properties after start and end have been set.
pub open spec fn with_start_end(properties: Properties, start: EntryTime, end: EntryTime) -> Properties {
    properties.insert("DTSTART"@, time_property(start)).insert("DTEND"@, time_property(end))
}

/// Sets start and end of `ical_event`: a day as a date, a second as a date
/// with time in UTC.
pub fn set_start_end(ical_event: &mut icalendar::Event, start: EntryTime, end: EntryTime)
    requires
        start.in_range(),
        end.in_range(),
    ensures
        event_properties(*final(ical_event)) == with_start_end(
            event_properties(*old(ical_event)),
            start,
            end,
        ),
{
    match start {
        EntryTime::Date(day) => set_start_date(ical_event, day),
        EntryTime::Moment(second) => set_starts(ical_event, second),
    }
    match end {
        EntryTime::Date(day) => set_end_date(ical_event, day),
        EntryTime::Moment(second) => set_ends(ical_event, second),
    }
}

/// The word for the status of an occurrence.
pub open spec fn status_text(cancelled: bool) -> Seq<char> {
    if cancelled {
        "CANCELLED"@
    } else {
        "CONFIRMED"@
    }
}

/// Sets the status of `ical_event`.
pub fn set_cancelled(ical_event: &mut icalendar::Event, cancelled: bool)
    ensures
        event_properties(*final(ical_event)) == event_properties(*old(ical_event)).insert(
            "STATUS"@,
            (stored(status_text(cancelled)), false),
        ),
{
    add_property(
        ical_event,
        "STATUS",
        if cancelled {
            "CANCELLED"
        } else {
            "CONFIRMED"
        },
    );
}

/// The properties after what an entry says of its one occurrence has been
/// set.
pub open spec fn with_detail(properties: Properties, detail: Option<EntryDetailView>) -> Properties {
    match detail {
        Some(detail) => properties.insert("URL"@, (stored(detail.url), false)).insert(
            "STATUS"@,
            (stored(status_text(detail.cancelled)), false),
        ).insert("LOCATION"@, (stored(detail.location), false)).insert(
            "GEO"@,
            (stored(detail.geo), false),
        ),
        None => properties,
    }
}

/// The properties after time of creation, detail and summary of entry `e`
/// have been set.
pub open spec fn with_basic_props(properties: Properties, e: CalendarEntryView) -> Properties {
    with_detail(with_dtstamp(properties, e.created), e.detail).insert(
        "SUMMARY"@,
        (stored(e.summary), false),
    )
}

/// Sets on `ical_event` what every entry has beside identity, span and
/// description: the time of creation, the summary and, for the entry of one
/// occurrence, address, status, location and position.
pub fn fill_basic_ical_event_props(ical_event: &mut icalendar::Event, entry: &CalendarEntry)
    requires
        entry@.created.wf(),
    ensures
        event_properties(*final(ical_event)) == with_basic_props(
            event_properties(*old(ical_event)),
            entry@,
        ),
{
    set_dtstamp(ical_event, &entry.created);
    match &entry.detail {
        Some(detail) => {
            add_property(ical_event, "URL", detail.url.as_str());
            set_cancelled(ical_event, detail.cancelled);
            set_location(ical_event, detail.location.as_str());
            add_property(ical_event, "GEO", detail.geo.as_str());
        },
        None => {},
    }
    set_summary(ical_event, entry.summary.as_str());
}

/// The properties of the event that stands for entry `e`.
pub open spec fn properties_of(e: CalendarEntryView) -> Properties {
    with_start_end(
        with_basic_props(no_properties(), e).insert(
            "UID"@,
            (stored(e.uid), false),
        ),
        e.start,
        e.end,
    ).insert("DESCRIPTION"@, (stored(e.description), false))
}

/// The event that stands for `entry`.
pub fn to_ical_event(entry: &CalendarEntry) -> (ical_event: icalendar::Event)
    requires
        entry@.wf(),
    ensures
        event_properties(ical_event) == properties_of(entry@),
        event_properties(ical_event).contains_key("UID"@),
        event_properties(ical_event).contains_key("DTSTAMP"@),
{
    let mut ical_event = new_event();
    fill_basic_ical_event_props(&mut ical_event, entry);
    set_uid(&mut ical_event, entry.uid.as_str());
    set_start_end(&mut ical_event, entry.start, entry.end);
    set_description(&mut ical_event, entry.description.as_str());
    proof {
        lemma_names_differ();
    }
    ical_event
}

/// The names of the properties are different names.
proof fn lemma_names_differ()
    ensures
        "UID"@ != "DTSTAMP"@,
        "UID"@ != "DTSTART"@,
        "UID"@ != "DTEND"@,
        "UID"@ != "DESCRIPTION"@,
        "DTSTAMP"@ != "DTSTART"@,
        "DTSTAMP"@ != "DTEND"@,
        "DTSTAMP"@ != "DESCRIPTION"@,
        "DTSTAMP"@ != "SUMMARY"@,
        "DTSTAMP"@ != "URL"@,
        "DTSTAMP"@ != "STATUS"@,
        "DTSTAMP"@ != "LOCATION"@,
        "DTSTAMP"@ != "GEO"@,
        "DTSTAMP"@ != "UID"@,
{
    reveal_strlit("UID");
    reveal_strlit("DTSTAMP");
    reveal_strlit("DTSTART");
    reveal_strlit("DTEND");
    reveal_strlit("DESCRIPTION");
    reveal_strlit("SUMMARY");
    reveal_strlit("URL");
    reveal_strlit("STATUS");
    reveal_strlit("LOCATION");
    reveal_strlit("GEO");
    assert("UID"@.len() == 3);
    assert("DTSTAMP"@.len() == 7);
    assert("DTSTART"@.len() == 7);
    assert("DTSTAMP"@[5] == 'M');
    assert("DTSTART"@[5] == 'R');
    assert("DTEND"@.len() == 5);
    assert("DESCRIPTION"@.len() == 11);
    assert("SUMMARY"@.len() == 7);
    assert("SUMMARY"@[0] == 'S');
    assert("DTSTAMP"@[0] == 'D');
    assert("URL"@.len() == 3);
    assert("URL"@[1] == 'R');
    assert("UID"@[1] == 'I');
    assert("STATUS"@.len() == 6);
    assert("LOCATION"@.len() == 8);
    assert("GEO"@.len() == 3);
}

/// The properties of the events that stand for `entries`, in their order.
pub open spec fn all_properties(entries: Seq<CalendarEntryView>) -> Seq<Properties> {
    entries.map_values(|e: CalendarEntryView| properties_of(e))
}

/// The iCalendar text of `entries`: that of a calendar which holds, in their
/// order, one event for each entry.
pub fn calendar_string(entries: &Vec<CalendarEntry>) -> (text: String)
    requires
        all_entries_wf(entry_views(entries@)),
    ensures
        text@ == calendar_text(all_properties(entry_views(entries@))),
{
    let mut calendar = new_calendar();
    let mut i: usize = 0;
    let ghost views = entry_views(entries@);
    while i < entries.len()
        invariant
            i <= entries.len(),
            views == entry_views(entries@),
            all_entries_wf(views),
            calendar_events(calendar) == all_properties(views.take(i as int)),
            forall|j: int|
                0 <= j < calendar_events(calendar).len() ==> (#[trigger] calendar_events(
                    calendar,
                )[j]).contains_key("UID"@) && calendar_events(calendar)[j].contains_key(
                    "DTSTAMP"@,
                ),
        decreases entries.len() - i,
    {
        assert(views[i as int].wf());
        let ghost before = calendar_events(calendar);
        let event = to_ical_event(&entries[i]);
        push_event(&mut calendar, event);
        assert(calendar_events(calendar) =~= all_properties(views.take(i + 1))) by {
            assert(views.take(i + 1) =~= views.take(i as int).push(views[i as int]));
        }
        i += 1;
    }
    assert(views.take(i as int) =~= views);
    calendar_to_string(&calendar)
}

} // verus!
