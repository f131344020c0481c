use chrono::Datelike;
use goout_calendar::entry::EntryTime;
use goout_calendar::model::EventRecord;
use goout_calendar::model::Occurrence;
use goout_calendar::model::Performer;
use goout_calendar::model::Venue;
use goout_calendar::render::create_ical_event;
use goout_calendar::render::get_description;
use goout_calendar::render::get_summary;
use goout_calendar::render::EventPhase;
use goout_calendar::render::OptionalDescFields;
use goout_calendar::time::Timestamp;
use std::collections::BTreeMap;
use std::rc::Rc;

fn at(text: &str) -> Timestamp {
    let instant = chrono::DateTime::parse_from_rfc3339(text).unwrap();
    Timestamp::new(instant.timestamp(), instant.offset().local_minus_utc()).unwrap()
}

fn day_number(year: i32, month: u32, day: u32) -> i32 {
    chrono::NaiveDate::from_ymd_opt(year, month, day).unwrap().num_days_from_ce()
}

fn event(name: &str, text: &str, categories: Vec<(u64, &str)>) -> Rc<EventRecord> {
    let mut by_id = BTreeMap::new();
    for (id, category) in categories {
        by_id.insert(id, category.to_string());
    }
    Rc::new(EventRecord { name: name.to_string(), text: text.to_string(), categories: by_id })
}

fn performer(name: &str, tags: Vec<&str>) -> Rc<Performer> {
    Rc::new(Performer {
        name: name.to_string(),
        tags: tags.into_iter().map(|tag| tag.to_string()).collect(),
    })
}

fn concert() -> Occurrence {
    Occurrence {
        id: 42,
        event: event("Koncert", " Three bands.\n\n", vec![(9, "Rock"), (1, "Jazz")]),
        url: "https://goout.net/koncert".to_string(),
        cancelled: false,
        start: at("2020-03-01T19:00:00+01:00"),
        end: at("2020-03-01T21:59:59+01:00"),
        uploaded_on: at("2020-01-10T12:34:56+01:00"),
        hour_ignored: false,
        is_long_term: false,
        pricing: "250".to_string(),
        currency: "CZK".to_string(),
        venue: Rc::new(Venue {
            name: "Klub".to_string(),
            address: "Ulice 1".to_string(),
            city: "Brno".to_string(),
            latitude: "49.2".to_string(),
            longitude: "16.6".to_string(),
            country: "Czechia".to_string(),
        }),
        performers: vec![performer("Kapela", vec!["rock", "indie"]), performer("Host", vec![])],
    }
}

#[test]
fn summary_names_the_event_and_its_categories_by_id() {
    assert_eq!(get_summary(&concert(), "en"), "Koncert (Jazz, Rock)");
    assert_eq!(get_summary(&concert(), "cs"), "Koncert (Jazz, Rock)");
}

#[test]
fn summary_of_an_event_without_categories_has_empty_parentheses() {
    let mut plain = concert();
    plain.event = event("Koncert", "", vec![]);
    assert_eq!(get_summary(&plain, "en"), "Koncert ()");
}

#[test]
fn cancelled_summary_begins_with_the_czech_label_for_cs() {
    let mut cancelled = concert();
    cancelled.cancelled = true;
    assert_eq!(get_summary(&cancelled, "cs"), "Zrušeno: Koncert (Jazz, Rock)");
}

#[test]
fn cancelled_summary_begins_with_the_english_label_for_any_other_language() {
    let mut cancelled = concert();
    cancelled.cancelled = true;
    assert_eq!(get_summary(&cancelled, "en"), "Cancelled: Koncert (Jazz, Rock)");
    assert_eq!(get_summary(&cancelled, "de"), "Cancelled: Koncert (Jazz, Rock)");
    assert_eq!(get_summary(&cancelled, ""), "Cancelled: Koncert (Jazz, Rock)");
    assert_eq!(get_summary(&cancelled, "CS"), "Cancelled: Koncert (Jazz, Rock)");
    assert_eq!(get_summary(&cancelled, "cs "), "Cancelled: Koncert (Jazz, Rock)");
}

#[test]
fn description_has_performers_pricing_text_and_url() {
    assert_eq!(
        get_description(&concert(), OptionalDescFields::default()),
        "Kapela (rock, indie), Host\nCZK 250\n\nThree bands.\n\nhttps://goout.net/koncert"
    );
}

#[test]
fn description_without_pricing_and_currency_has_no_line_for_them() {
    let mut free = concert();
    free.pricing = String::new();
    free.currency = String::new();
    assert_eq!(
        get_description(&free, OptionalDescFields::default()),
        "Kapela (rock, indie), Host\n\nThree bands.\n\nhttps://goout.net/koncert"
    );
    assert_eq!(
        get_description(&free, OptionalDescFields::empty()),
        "Kapela (rock, indie), Host\nhttps://goout.net/koncert"
    );
}

#[test]
fn description_needs_both_currency_and_pricing_for_their_line() {
    let mut no_currency = concert();
    no_currency.currency = String::new();
    assert_eq!(
        get_description(&no_currency, OptionalDescFields::empty()),
        "Kapela (rock, indie), Host\nhttps://goout.net/koncert"
    );
    let mut no_pricing = concert();
    no_pricing.pricing = String::new();
    assert_eq!(
        get_description(&no_pricing, OptionalDescFields::empty()),
        "Kapela (rock, indie), Host\nhttps://goout.net/koncert"
    );
}

#[test]
fn description_leaves_out_a_blank_event_text() {
    let mut silent = concert();
    silent.event = event("Koncert", " \n\t ", vec![]);
    assert_eq!(
        get_description(&silent, OptionalDescFields::default()),
        "Kapela (rock, indie), Host\nCZK 250\nhttps://goout.net/koncert"
    );
    silent.event = event("Koncert", "", vec![]);
    assert_eq!(
        get_description(&silent, OptionalDescFields::default()),
        "Kapela (rock, indie), Host\nCZK 250\nhttps://goout.net/koncert"
    );
}

#[test]
fn description_takes_the_white_space_off_both_ends_of_the_event_text() {
    let mut padded = concert();
    padded.event = event("Koncert", "\n\n  first line\n second line \u{a0}\r\n", vec![]);
    padded.performers = vec![];
    padded.pricing = String::new();
    assert_eq!(
        get_description(&padded, OptionalDescFields::default()),
        "\nfirst line\n second line\n\nhttps://goout.net/koncert"
    );
}

#[test]
fn description_without_event_text_when_it_is_not_asked_for() {
    assert_eq!(
        get_description(&concert(), OptionalDescFields::empty()),
        "Kapela (rock, indie), Host\nCZK 250\nhttps://goout.net/koncert"
    );
}

#[test]
fn description_of_nothing_but_the_url() {
    let mut bare = concert();
    bare.performers = vec![];
    bare.pricing = String::new();
    bare.currency = String::new();
    bare.event = event("Koncert", "", vec![]);
    assert_eq!(get_description(&bare, OptionalDescFields::default()), "https://goout.net/koncert");
    bare.url = String::new();
    assert_eq!(get_description(&bare, OptionalDescFields::default()), "");
    bare.pricing = "1".to_string();
    bare.currency = "EUR".to_string();
    assert_eq!(get_description(&bare, OptionalDescFields::default()), "EUR 1\n");
}

#[test]
fn description_leaves_out_a_blank_line_of_performers() {
    let mut unnamed = concert();
    unnamed.performers = vec![performer(" ", vec![])];
    assert_eq!(
        get_description(&unnamed, OptionalDescFields::empty()),
        "CZK 250\nhttps://goout.net/koncert"
    );
}

#[test]
fn optional_fields_hold_the_event_text_unless_empty() {
    assert!(OptionalDescFields::default().event_text);
    assert!(!OptionalDescFields::empty().event_text);
    assert!(OptionalDescFields::default().contains(&OptionalDescFields::default()));
    assert!(OptionalDescFields::default().contains(&OptionalDescFields::empty()));
    assert!(OptionalDescFields::empty().contains(&OptionalDescFields::empty()));
    assert!(!OptionalDescFields::empty().contains(&OptionalDescFields::default()));
}

#[test]
fn phases_are_labelled_in_czech_for_cs_and_in_english_otherwise() {
    assert_eq!(EventPhase::Begin.prefix("cs"), "Začátek: ");
    assert_eq!(EventPhase::Begin.prefix("en"), "Begin: ");
    assert_eq!(EventPhase::BeginEnd.prefix("cs"), "Začátek a konec: ");
    assert_eq!(EventPhase::BeginEnd.prefix("sk"), "Begin and end: ");
    assert_eq!(EventPhase::End.prefix("cs"), "Konec: ");
    assert_eq!(EventPhase::End.prefix(""), "End: ");
    assert_eq!(EventPhase::Continued.prefix("cs"), "Pokračující: ");
    assert_eq!(EventPhase::Continued.prefix("fr"), "Continued: ");
}

#[test]
fn entry_of_a_timed_occurrence_ends_one_second_after_its_last_second() {
    let occurrence = concert();
    assert!(occurrence.is_valid());
    let entry = create_ical_event(&occurrence, "en");
    assert_eq!(entry.uid, "Schedule#42@goout.net");
    assert_eq!(entry.created, at("2020-01-10T12:34:56+01:00"));
    assert_eq!(entry.start, EntryTime::Moment(at("2020-03-01T18:00:00Z").utc_seconds));
    assert_eq!(entry.end, EntryTime::Moment(at("2020-03-01T21:00:00Z").utc_seconds));
    assert_eq!(entry.summary, "Koncert (Jazz, Rock)");
    assert_eq!(
        entry.description,
        "Kapela (rock, indie), Host\nCZK 250\n\nThree bands.\n\nhttps://goout.net/koncert"
    );
    let detail = entry.detail.unwrap();
    assert_eq!(detail.url, "https://goout.net/koncert");
    assert!(!detail.cancelled);
    assert_eq!(detail.location, "Klub, Ulice 1, Brno, Czechia");
    assert_eq!(detail.geo, "49.2;16.6");
}

#[test]
fn entry_of_an_occurrence_of_whole_days_ends_on_the_day_after_its_last_day() {
    let mut festival = concert();
    festival.hour_ignored = true;
    festival.cancelled = true;
    festival.start = at("2020-02-28T00:00:00+01:00");
    festival.end = at("2020-02-29T10:00:00+01:00");
    let entry = create_ical_event(&festival, "cs");
    assert_eq!(entry.start, EntryTime::Date(day_number(2020, 2, 28)));
    assert_eq!(entry.end, EntryTime::Date(day_number(2020, 3, 1)));
    assert_eq!(entry.summary, "Zrušeno: Koncert (Jazz, Rock)");
    assert!(entry.detail.unwrap().cancelled);
}

#[test]
fn entry_of_a_single_day_occurrence_of_whole_days_is_one_day_long() {
    let mut day = concert();
    day.hour_ignored = true;
    day.start = at("2020-12-31T00:00:00+01:00");
    day.end = at("2020-12-31T23:59:59+01:00");
    let entry = create_ical_event(&day, "en");
    assert_eq!(entry.start, EntryTime::Date(day_number(2020, 12, 31)));
    assert_eq!(entry.end, EntryTime::Date(day_number(2021, 1, 1)));
}

#[test]
fn an_occurrence_that_ends_before_it_starts_is_not_valid() {
    let mut backwards = concert();
    backwards.end = at("2020-03-01T18:59:59+01:00");
    assert!(!backwards.is_valid());
    backwards.end = backwards.start;
    assert!(backwards.is_valid());
}

#[test]
fn an_occurrence_whose_last_day_is_before_its_first_is_not_valid() {
    let mut shifted = concert();
    shifted.start = at("2020-03-02T00:30:00+01:00");
    shifted.end = at("2020-03-01T20:00:00-05:00");
    assert!(shifted.start.utc_seconds <= shifted.end.utc_seconds);
    assert!(!shifted.is_valid());
}

#[test]
fn an_occurrence_with_an_instant_out_of_range_is_not_valid() {
    let mut late = concert();
    late.uploaded_on = Timestamp { utc_seconds: 0, offset_seconds: 86_400 };
    assert!(!late.is_valid());
}

#[test]
fn a_derived_occurrence_differs_in_id_span_and_name_only() {
    let original = concert();
    let derived = original.derive(
        7,
        at("2020-03-01T20:00:00+01:00"),
        at("2020-03-01T20:30:00+01:00"),
        "Prefix: Koncert".to_string(),
    );
    assert_eq!(derived.id, 7);
    assert_eq!(derived.start, at("2020-03-01T20:00:00+01:00"));
    assert_eq!(derived.end, at("2020-03-01T20:30:00+01:00"));
    assert_eq!(derived.event.name, "Prefix: Koncert");
    assert_eq!(derived.event.text, original.event.text);
    assert_eq!(derived.event.categories, original.event.categories);
    assert_eq!(original.event.name, "Koncert");
    assert_eq!(derived.url, original.url);
    assert_eq!(derived.cancelled, original.cancelled);
    assert_eq!(derived.uploaded_on, original.uploaded_on);
    assert_eq!(derived.hour_ignored, original.hour_ignored);
    assert_eq!(derived.is_long_term, original.is_long_term);
    assert_eq!(derived.pricing, original.pricing);
    assert_eq!(derived.currency, original.currency);
    assert!(Rc::ptr_eq(&derived.venue, &original.venue));
    assert_eq!(derived.performers.len(), 2);
    assert!(Rc::ptr_eq(&derived.performers[0], &original.performers[0]));
    assert!(Rc::ptr_eq(&derived.performers[1], &original.performers[1]));
}
