use chrono::Datelike;
use goout_calendar::aggregate::generate_events_aggregate;
use goout_calendar::aggregate::get_longterm_part_description;
use goout_calendar::aggregate::render_aggregate_event;
use goout_calendar::entry::CalendarEntry;
use goout_calendar::entry::EntryTime;
use goout_calendar::model::EventRecord;
use goout_calendar::model::Occurrence;
use goout_calendar::model::Performer;
use goout_calendar::model::Venue;
use goout_calendar::time::Timestamp;
use std::collections::BTreeMap;
use std::rc::Rc;

fn at(text: &str) -> Timestamp {
    let instant = chrono::DateTime::parse_from_rfc3339(text).unwrap();
    Timestamp::new(instant.timestamp(), instant.offset().local_minus_utc()).unwrap()
}

fn january(day: u32) -> i32 {
    chrono::NaiveDate::from_ymd_opt(2020, 1, day).unwrap().num_days_from_ce()
}

fn long_term(id: u64, name: &str, first: u32, last: u32) -> Occurrence {
    let mut categories = BTreeMap::new();
    categories.insert(1, "Art".to_string());
    Occurrence {
        id,
        event: Rc::new(EventRecord {
            name: name.to_string(),
            text: "On show.".to_string(),
            categories,
        }),
        url: format!("https://goout.net/{}", id),
        cancelled: false,
        start: at(&format!("2020-01-{:02}T00:00:00+01:00", first)),
        end: at(&format!("2020-01-{:02}T23:59:59+01:00", last)),
        uploaded_on: at(&format!("2019-12-{:02}T08:00:00+01:00", id)),
        hour_ignored: true,
        is_long_term: true,
        pricing: "5".to_string(),
        currency: "EUR".to_string(),
        venue: Rc::new(Venue {
            name: "Gallery".to_string(),
            address: "Lane 3".to_string(),
            city: "City".to_string(),
            latitude: "10".to_string(),
            longitude: "20".to_string(),
            country: "Land".to_string(),
        }),
        performers: vec![Rc::new(Performer { name: "Painter".to_string(), tags: vec![] })],
    }
}

fn spans(entries: &Vec<CalendarEntry>) -> Vec<(i32, i32)> {
    entries
        .iter()
        .map(|entry| match (entry.start, entry.end) {
            (EntryTime::Date(first), EntryTime::Date(after)) => (first, after),
            _ => panic!("an entry of whole days was expected"),
        })
        .collect()
}

fn covering(entries: &Vec<CalendarEntry>, day: i32) -> usize {
    spans(entries).iter().filter(|(first, after)| *first <= day && day < *after).count()
}

#[test]
fn overlapping_occurrences_are_cut_at_every_day_on_which_one_starts_or_has_ended() {
    let occurrences =
        vec![long_term(1, "One", 1, 10), long_term(2, "Two", 5, 15), long_term(3, "Three", 20, 25)];
    let entries = generate_events_aggregate(occurrences, "en");
    assert_eq!(
        spans(&entries),
        vec![
            (january(1), january(5)),
            (january(5), january(11)),
            (january(11), january(16)),
            (january(20), january(26)),
        ]
    );
    assert_eq!(entries[0].uid, "Schedule#1@goout.net");
    assert_eq!(entries[0].summary, "One (Art)");
    assert_eq!(
        entries[0].description,
        "Painter\nEUR 5\n\nOn show.\n\nhttps://goout.net/1\n\n2020-01-01 - 2020-01-10"
    );
    assert!(entries[0].detail.is_some());

    assert_eq!(entries[1].uid, "LongTermSchedule2020-01-05@goout.net");
    assert_eq!(entries[1].summary, "2 long-term events");
    assert_eq!(
        entries[1].description,
        "One (Art)\n2020-01-01 - 2020-01-10\nPainter\nEUR 5\nhttps://goout.net/1\n\n\
         Two (Art)\n2020-01-05 - 2020-01-15\nPainter\nEUR 5\nhttps://goout.net/2"
    );
    assert!(entries[1].detail.is_none());
    assert_eq!(entries[1].created, at("2019-12-01T08:00:00+01:00"));

    assert_eq!(entries[2].uid, "Schedule#2@goout.net");
    assert_eq!(
        entries[2].description,
        "Painter\nEUR 5\n\nOn show.\n\nhttps://goout.net/2\n\n2020-01-05 - 2020-01-15"
    );
    assert_eq!(entries[3].uid, "Schedule#3@goout.net");
    assert_eq!(entries[3].created, at("2019-12-03T08:00:00+01:00"));
}

#[test]
fn aggregated_entries_cover_the_days_of_the_occurrences_and_each_once() {
    let occurrences = vec![
        long_term(1, "One", 3, 10),
        long_term(2, "Two", 5, 15),
        long_term(3, "Three", 20, 25),
        long_term(4, "Four", 5, 5),
        long_term(5, "Five", 16, 17),
        long_term(6, "Six", 1, 28),
    ];
    let entries = generate_events_aggregate(occurrences, "en");
    for day in 1..=28 {
        assert_eq!(covering(&entries, january(day)), 1);
    }
    assert_eq!(covering(&entries, january(1) - 1), 0);
    assert_eq!(covering(&entries, january(29)), 0);
}

#[test]
fn days_without_a_long_term_occurrence_are_not_covered() {
    let occurrences = vec![long_term(1, "One", 3, 10), long_term(2, "Two", 14, 14)];
    let entries = generate_events_aggregate(occurrences, "en");
    for day in 1..=20 {
        let on = (3..=10).contains(&day) || day == 14;
        assert_eq!(covering(&entries, january(day)), if on { 1 } else { 0 });
    }
}

#[test]
fn occurrences_that_do_not_overlap_get_one_entry_each() {
    let occurrences = vec![
        long_term(3, "Three", 20, 20),
        long_term(1, "One", 1, 10),
        long_term(2, "Two", 11, 12),
    ];
    let entries = generate_events_aggregate(occurrences, "en");
    assert_eq!(
        spans(&entries),
        vec![(january(1), january(11)), (january(11), january(13)), (january(20), january(21))]
    );
    let uids: Vec<&str> = entries.iter().map(|entry| entry.uid.as_str()).collect();
    assert_eq!(uids, vec!["Schedule#1@goout.net", "Schedule#2@goout.net", "Schedule#3@goout.net"]);
    for entry in &entries {
        assert!(entry.detail.is_some());
    }
    assert_eq!(
        entries[2].description,
        "Painter\nEUR 5\n\nOn show.\n\nhttps://goout.net/3\n\n2020-01-20 - 2020-01-20"
    );
}

#[test]
fn an_occurrence_of_one_day_is_swept_like_any_other() {
    let entries = generate_events_aggregate(vec![long_term(7, "Day", 9, 9)], "en");
    assert_eq!(spans(&entries), vec![(january(9), january(10))]);
    assert_eq!(entries[0].uid, "Schedule#7@goout.net");
}

#[test]
fn entries_of_other_occurrences_come_first() {
    let mut talk = long_term(9, "Talk", 2, 2);
    talk.is_long_term = false;
    let occurrences = vec![long_term(1, "One", 1, 10), talk, long_term(2, "Two", 11, 12)];
    let entries = generate_events_aggregate(occurrences, "en");
    let uids: Vec<&str> = entries.iter().map(|entry| entry.uid.as_str()).collect();
    assert_eq!(uids, vec!["Schedule#9@goout.net", "Schedule#1@goout.net", "Schedule#2@goout.net"]);
    assert_eq!(entries[0].description, "Painter\nEUR 5\n\nOn show.\n\nhttps://goout.net/9");
}

#[test]
fn active_occurrences_stand_in_the_order_of_their_start_then_of_the_input() {
    let occurrences = vec![
        long_term(1, "Late", 5, 20),
        long_term(2, "Early", 1, 20),
        long_term(3, "Also late", 5, 20),
    ];
    let entries = generate_events_aggregate(occurrences, "en");
    assert_eq!(spans(&entries), vec![(january(1), january(5)), (january(5), january(21))]);
    assert_eq!(entries[1].summary, "3 long-term events");
    assert_eq!(entries[1].created, at("2019-12-02T08:00:00+01:00"));
    let order: Vec<&str> =
        entries[1].description.split("\n\n").map(|part| part.lines().next().unwrap()).collect();
    assert_eq!(order, vec!["Early (Art)", "Late (Art)", "Also late (Art)"]);
}

#[test]
fn occurrences_that_share_an_id_leave_together() {
    let occurrences = vec![long_term(1, "One", 1, 10), long_term(1, "Again", 5, 20)];
    let entries = generate_events_aggregate(occurrences, "en");
    assert_eq!(spans(&entries), vec![(january(1), january(5)), (january(5), january(11))]);
}

#[test]
fn the_day_is_that_of_the_local_clock_of_each_instant() {
    let mut late = long_term(1, "One", 1, 2);
    late.start = at("2020-01-01T23:30:00-05:00");
    late.end = at("2020-01-03T00:30:00+01:00");
    assert!(late.is_valid());
    let entries = generate_events_aggregate(vec![late], "en");
    assert_eq!(spans(&entries), vec![(january(1), january(4))]);
}

#[test]
fn a_part_of_a_summing_up_entry_has_no_event_text() {
    let mut cancelled = long_term(1, "One", 1, 10);
    cancelled.cancelled = true;
    assert_eq!(
        get_longterm_part_description(&cancelled, "cs"),
        "Zrušeno: One (Art)\n2020-01-01 - 2020-01-10\nPainter\nEUR 5\nhttps://goout.net/1"
    );
}

#[test]
fn one_active_occurrence_is_rendered_in_full() {
    let one = long_term(1, "One", 1, 10);
    let entry = render_aggregate_event(january(3), january(7), &vec![&one], "en");
    assert_eq!(entry.uid, "Schedule#1@goout.net");
    assert_eq!(entry.start, EntryTime::Date(january(3)));
    assert_eq!(entry.end, EntryTime::Date(january(7)));
    assert_eq!(entry.summary, "One (Art)");
    let detail = entry.detail.unwrap();
    assert_eq!(detail.location, "Gallery, Lane 3, City, Land");
    assert_eq!(detail.geo, "10;20");
    assert_eq!(detail.url, "https://goout.net/1");
}

#[test]
fn several_active_occurrences_are_summed_up() {
    let one = long_term(1, "One", 1, 10);
    let two = long_term(2, "Two", 1, 10);
    let entry = render_aggregate_event(january(1), january(11), &vec![&two, &one], "cs");
    assert_eq!(entry.uid, "LongTermSchedule2020-01-01@goout.net");
    assert_eq!(entry.summary, "2 long-term events");
    assert_eq!(entry.created, two.uploaded_on);
    assert!(entry.detail.is_none());
    assert!(entry.description.starts_with("Two (Art)\n"));
}
