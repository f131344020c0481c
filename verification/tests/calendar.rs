use goout_calendar::calendar::serve;
use goout_calendar::calendar::CalendarRequest;
use goout_calendar::calendar::LongtermHandling;
use goout_calendar::error::FormParseError;
use goout_calendar::error::HandlerError;
use goout_calendar::error::Status;
use goout_calendar::generation::generate;
use goout_calendar::generation::page_query;
use goout_calendar::generation::EventsResponse;
use goout_calendar::generation::NextStep;
use goout_calendar::generation::PageCollector;
use goout_calendar::generation::ScheduleOnWire;
use goout_calendar::model::EventRecord;
use goout_calendar::model::Performer;
use goout_calendar::model::Venue;
use goout_calendar::policy::can_split;
use goout_calendar::time::Timestamp;
use std::collections::BTreeMap;
use std::collections::HashMap;

const EXPECTED_EMPTY: &str = "BEGIN:VCALENDAR\r\n\
VERSION:2.0\r\n\
PRODID:ICALENDAR-RS\r\n\
CALSCALE:GREGORIAN\r\n\
END:VCALENDAR\r\n";

const EXPECTED_NONSPLIT: &str = "BEGIN:VCALENDAR\r\n\
VERSION:2.0\r\n\
PRODID:ICALENDAR-RS\r\n\
CALSCALE:GREGORIAN\r\n\
BEGIN:VEVENT\r\n\
DESCRIPTION:Kapela (rock, indie), DJ Nobody\\nCZK 250\\n\\nApollo Czech Music \r\n \
Critics Awards.\\n\\nhttps://goout.net/a\r\n\
DTEND:20200301T210001Z\r\n\
DTSTAMP:20200110T123456\r\n\
DTSTART:20200301T180000Z\r\n\
GEO:50.0533;14.4082\r\n\
LOCATION:MeetFactory, Ke Sklárně 15, Praha 5, Czech Republic\r\n\
STATUS:CONFIRMED\r\n\
SUMMARY:Hudební ceny Apollo 2018 (Festivals, Concerts)\r\n\
UID:Schedule#1001@goout.net\r\n\
URL:https://goout.net/a\r\n\
END:VEVENT\r\n\
BEGIN:VEVENT\r\n\
DESCRIPTION:https://goout.net/b\r\n\
DTEND;VALUE=DATE:20200311\r\n\
DTSTAMP:20200111T080000\r\n\
DTSTART;VALUE=DATE:20200301\r\n\
GEO:50.0533;14.4082\r\n\
LOCATION:MeetFactory, Ke Sklárně 15, Praha 5, Czech Republic\r\n\
STATUS:CANCELLED\r\n\
SUMMARY:Cancelled: Výstava (Exhibitions)\r\n\
UID:Schedule#1002@goout.net\r\n\
URL:https://goout.net/b\r\n\
END:VEVENT\r\n\
BEGIN:VEVENT\r\n\
DESCRIPTION:DJ Nobody\\n\\nFarmers market\\n\\nhttps://goout.net/c\r\n\
DTEND;VALUE=DATE:20200316\r\n\
DTSTAMP:20200112T093000\r\n\
DTSTART;VALUE=DATE:20200305\r\n\
GEO:50.0533;14.4082\r\n\
LOCATION:MeetFactory, Ke Sklárně 15, Praha 5, Czech Republic\r\n\
STATUS:CONFIRMED\r\n\
SUMMARY:Trhy ()\r\n\
UID:Schedule#1003@goout.net\r\n\
URL:https://goout.net/c\r\n\
END:VEVENT\r\n\
END:VCALENDAR\r\n\
";

const EXPECTED_SPLIT: &str = "BEGIN:VCALENDAR\r\n\
VERSION:2.0\r\n\
PRODID:ICALENDAR-RS\r\n\
CALSCALE:GREGORIAN\r\n\
BEGIN:VEVENT\r\n\
DESCRIPTION:Kapela (rock, indie), DJ Nobody\\nCZK 250\\n\\nApollo Czech Music \r\n \
Critics Awards.\\n\\nhttps://goout.net/a\r\n\
DTEND:20200301T210001Z\r\n\
DTSTAMP:20200110T123456\r\n\
DTSTART:20200301T180000Z\r\n\
GEO:50.0533;14.4082\r\n\
LOCATION:MeetFactory, Ke Sklárně 15, Praha 5, Czech Republic\r\n\
STATUS:CONFIRMED\r\n\
SUMMARY:Hudební ceny Apollo 2018 (Festivals, Concerts)\r\n\
UID:Schedule#1001@goout.net\r\n\
URL:https://goout.net/a\r\n\
END:VEVENT\r\n\
BEGIN:VEVENT\r\n\
DESCRIPTION:https://goout.net/b\r\n\
DTEND;VALUE=DATE:20200302\r\n\
DTSTAMP:20200111T080000\r\n\
DTSTART;VALUE=DATE:20200301\r\n\
GEO:50.0533;14.4082\r\n\
LOCATION:MeetFactory, Ke Sklárně 15, Praha 5, Czech Republic\r\n\
STATUS:CANCELLED\r\n\
SUMMARY:Cancelled: Begin: Výstava (Exhibitions)\r\n\
UID:Schedule#1000000001002@goout.net\r\n\
URL:https://goout.net/b\r\n\
END:VEVENT\r\n\
BEGIN:VEVENT\r\n\
DESCRIPTION:https://goout.net/b\r\n\
DTEND;VALUE=DATE:20200311\r\n\
DTSTAMP:20200111T080000\r\n\
DTSTART;VALUE=DATE:20200310\r\n\
GEO:50.0533;14.4082\r\n\
LOCATION:MeetFactory, Ke Sklárně 15, Praha 5, Czech Republic\r\n\
STATUS:CANCELLED\r\n\
SUMMARY:Cancelled: End: Výstava (Exhibitions)\r\n\
UID:Schedule#2000000001002@goout.net\r\n\
URL:https://goout.net/b\r\n\
END:VEVENT\r\n\
BEGIN:VEVENT\r\n\
DESCRIPTION:DJ Nobody\\n\\nFarmers market\\n\\nhttps://goout.net/c\r\n\
DTEND;VALUE=DATE:20200306\r\n\
DTSTAMP:20200112T093000\r\n\
DTSTART;VALUE=DATE:20200305\r\n\
GEO:50.0533;14.4082\r\n\
LOCATION:MeetFactory, Ke Sklárně 15, Praha 5, Czech Republic\r\n\
STATUS:CONFIRMED\r\n\
SUMMARY:Begin: Trhy ()\r\n\
UID:Schedule#1000000001003@goout.net\r\n\
URL:https://goout.net/c\r\n\
END:VEVENT\r\n\
BEGIN:VEVENT\r\n\
DESCRIPTION:DJ Nobody\\n\\nFarmers market\\n\\nhttps://goout.net/c\r\n\
DTEND;VALUE=DATE:20200316\r\n\
DTSTAMP:20200112T093000\r\n\
DTSTART;VALUE=DATE:20200315\r\n\
GEO:50.0533;14.4082\r\n\
LOCATION:MeetFactory, Ke Sklárně 15, Praha 5, Czech Republic\r\n\
STATUS:CONFIRMED\r\n\
SUMMARY:End: Trhy ()\r\n\
UID:Schedule#2000000001003@goout.net\r\n\
URL:https://goout.net/c\r\n\
END:VEVENT\r\n\
END:VCALENDAR\r\n\
";

const EXPECTED_AGGREGATE: &str = "BEGIN:VCALENDAR\r\n\
VERSION:2.0\r\n\
PRODID:ICALENDAR-RS\r\n\
CALSCALE:GREGORIAN\r\n\
BEGIN:VEVENT\r\n\
DESCRIPTION:Kapela (rock, indie), DJ Nobody\\nCZK 250\\n\\nApollo Czech Music \r\n \
Critics Awards.\\n\\nhttps://goout.net/a\r\n\
DTEND:20200301T210001Z\r\n\
DTSTAMP:20200110T123456\r\n\
DTSTART:20200301T180000Z\r\n\
GEO:50.0533;14.4082\r\n\
LOCATION:MeetFactory, Ke Sklárně 15, Praha 5, Czech Republic\r\n\
STATUS:CONFIRMED\r\n\
SUMMARY:Hudební ceny Apollo 2018 (Festivals, Concerts)\r\n\
UID:Schedule#1001@goout.net\r\n\
URL:https://goout.net/a\r\n\
END:VEVENT\r\n\
BEGIN:VEVENT\r\n\
DESCRIPTION:https://goout.net/b\\n\\n2020-03-01 - 2020-03-10\r\n\
DTEND;VALUE=DATE:20200305\r\n\
DTSTAMP:20200111T080000\r\n\
DTSTART;VALUE=DATE:20200301\r\n\
GEO:50.0533;14.4082\r\n\
LOCATION:MeetFactory, Ke Sklárně 15, Praha 5, Czech Republic\r\n\
STATUS:CANCELLED\r\n\
SUMMARY:Cancelled: Výstava (Exhibitions)\r\n\
UID:Schedule#1002@goout.net\r\n\
URL:https://goout.net/b\r\n\
END:VEVENT\r\n\
BEGIN:VEVENT\r\n\
DESCRIPTION:Cancelled: Výstava (Exhibitions)\\n2020-03-01 - 2020-03-10\\nhtt\r\n \
ps://goout.net/b\\n\\nTrhy ()\\n2020-03-05 - 2020-03-15\\nDJ Nobody\\nhttps://go\r\n \
out.net/c\r\n\
DTEND;VALUE=DATE:20200311\r\n\
DTSTAMP:20200111T080000\r\n\
DTSTART;VALUE=DATE:20200305\r\n\
SUMMARY:2 long-term events\r\n\
UID:LongTermSchedule2020-03-05@goout.net\r\n\
END:VEVENT\r\n\
BEGIN:VEVENT\r\n\
DESCRIPTION:DJ Nobody\\n\\nFarmers market\\n\\nhttps://goout.net/c\\n\\n2020-03-0\r\n \
5 - 2020-03-15\r\n\
DTEND;VALUE=DATE:20200316\r\n\
DTSTAMP:20200112T093000\r\n\
DTSTART;VALUE=DATE:20200311\r\n\
GEO:50.0533;14.4082\r\n\
LOCATION:MeetFactory, Ke Sklárně 15, Praha 5, Czech Republic\r\n\
STATUS:CONFIRMED\r\n\
SUMMARY:Trhy ()\r\n\
UID:Schedule#1003@goout.net\r\n\
URL:https://goout.net/c\r\n\
END:VEVENT\r\n\
END:VCALENDAR\r\n\
";


fn at(text: &str) -> Timestamp {
    let instant = chrono::DateTime::parse_from_rfc3339(text).unwrap();
    Timestamp::new(instant.timestamp(), instant.offset().local_minus_utc()).unwrap()
}

fn events_page() -> EventsResponse {
    let mut venues = HashMap::new();
    venues.insert(
        1,
        Venue {
            name: "MeetFactory".to_string(),
            address: "Ke Sklárně 15".to_string(),
            city: "Praha 5".to_string(),
            latitude: "50.0533".to_string(),
            longitude: "14.4082".to_string(),
            country: "Czech Republic".to_string(),
        },
    );
    let mut performers = HashMap::new();
    performers.insert(
        10,
        Performer { name: "Kapela".to_string(), tags: vec!["rock".to_string(), "indie".to_string()] },
    );
    performers.insert(11, Performer { name: "DJ Nobody".to_string(), tags: vec![] });
    let mut events = HashMap::new();
    let mut apollo = BTreeMap::new();
    apollo.insert(5, "Concerts".to_string());
    apollo.insert(2, "Festivals".to_string());
    events.insert(
        100,
        EventRecord {
            name: "Hudební ceny Apollo 2018".to_string(),
            text: "  Apollo Czech Music Critics Awards.\n".to_string(),
            categories: apollo,
        },
    );
    let mut exhibition = BTreeMap::new();
    exhibition.insert(7, "Exhibitions".to_string());
    events.insert(
        101,
        EventRecord { name: "Výstava".to_string(), text: "".to_string(), categories: exhibition },
    );
    events.insert(
        102,
        EventRecord {
            name: "Trhy".to_string(),
            text: "Farmers market".to_string(),
            categories: BTreeMap::new(),
        },
    );
    let schedule = vec![
        ScheduleOnWire {
            id: 1001,
            event_id: 100,
            url: "https://goout.net/a".to_string(),
            cancelled: false,
            start: at("2020-03-01T19:00:00+01:00"),
            end: at("2020-03-01T22:00:00+01:00"),
            uploaded_on: at("2020-01-10T12:34:56+01:00"),
            hour_ignored: false,
            is_long_term: false,
            pricing: "250".to_string(),
            currency: "CZK".to_string(),
            venue_id: 1,
            performer_ids: vec![10, 11],
        },
        ScheduleOnWire {
            id: 1002,
            event_id: 101,
            url: "https://goout.net/b".to_string(),
            cancelled: true,
            start: at("2020-03-01T00:00:00+01:00"),
            end: at("2020-03-10T23:59:59+01:00"),
            uploaded_on: at("2020-01-11T08:00:00+01:00"),
            hour_ignored: true,
            is_long_term: true,
            pricing: "".to_string(),
            currency: "".to_string(),
            venue_id: 1,
            performer_ids: vec![],
        },
        ScheduleOnWire {
            id: 1003,
            event_id: 102,
            url: "https://goout.net/c".to_string(),
            cancelled: false,
            start: at("2020-03-05T00:00:00+01:00"),
            end: at("2020-03-15T23:59:59+01:00"),
            uploaded_on: at("2020-01-12T09:30:00+01:00"),
            hour_ignored: true,
            is_long_term: true,
            pricing: "free".to_string(),
            currency: "".to_string(),
            venue_id: 1,
            performer_ids: vec![11],
        },
    ];
    EventsResponse {
        status: 200,
        message: "\"OK\"".to_string(),
        has_next: false,
        schedule,
        venues,
        performers,
        events,
    }
}

fn empty_page() -> EventsResponse {
    EventsResponse {
        status: 200,
        message: "\"OK\"".to_string(),
        has_next: false,
        schedule: vec![],
        venues: HashMap::new(),
        performers: HashMap::new(),
        events: HashMap::new(),
    }
}

fn page_named(file: &str) -> EventsResponse {
    match file {
        "events.json" => events_page(),
        "events_empty.json" => empty_page(),
        _ => panic!("no such page: {}", file),
    }
}

fn expected_in(file: &str) -> &'static str {
    match file {
        "test_data/expected_nonsplit.ical" => EXPECTED_NONSPLIT,
        "test_data/expected_split.ical" => EXPECTED_SPLIT,
        "test_data/expected_aggregate.ical" => EXPECTED_AGGREGATE,
        "test_data/expected_empty.ical" => EXPECTED_EMPTY,
        _ => panic!("no such expectation: {}", file),
    }
}

fn parameters(path: &str) -> Vec<(String, String)> {
    let query = match path.split_once('?') {
        Some((_, query)) => query,
        None => "",
    };
    let mut found = Vec::new();
    for part in query.split('&') {
        if part.is_empty() {
            continue;
        }
        match part.split_once('=') {
            Some((key, value)) => found.push((key.to_string(), value.to_string())),
            None => found.push((part.to_string(), String::new())),
        }
    }
    found
}

fn parameter(found: &Vec<(String, String)>, key: &str) -> Option<String> {
    for (name, value) in found {
        if name == key {
            return Some(value.clone());
        }
    }
    None
}

fn request_of(path: &str) -> Result<CalendarRequest, HandlerError> {
    let found = parameters(path);
    let id = match parameter(&found, "id") {
        None => return Err(HandlerError::from(FormParseError::Missing("id".to_string()))),
        Some(text) => match text.parse::<u64>() {
            Ok(id) => id,
            Err(_) => {
                return Err(HandlerError::from(FormParseError::BadValue("id".to_string(), text)))
            }
        },
    };
    let language = match parameter(&found, "language") {
        None => return Err(HandlerError::from(FormParseError::Missing("language".to_string()))),
        Some(language) => language,
    };
    let after = parameter(&found, "after");
    let split = parameter(&found, "split").map(|text| match text.as_str() {
        "true" => Ok(true),
        "false" => Ok(false),
        _ => Err(text),
    });
    let longterm = parameter(&found, "longterm").map(|text| match text.as_str() {
        "preserve" => Ok(LongtermHandling::Preserve),
        "split" => Ok(LongtermHandling::Split),
        "aggregate" => Ok(LongtermHandling::Aggregate),
        _ => Err(text),
    });
    serve(id, language, after, split, longterm)
}

fn query_string(params: &Vec<(String, String)>) -> String {
    let mut parts = Vec::new();
    for (name, value) in params {
        parts.push(format!("{}={}", name, value));
    }
    parts.join("&")
}

fn answer(path: &str, goout_api_resp_file: &str) -> (u16, &'static str, String, Option<String>) {
    let request = match request_of(path) {
        Ok(request) => request,
        Err(refusal) => {
            return (refusal.status.code(), "text/plain; charset=utf-8", refusal.text, None)
        }
    };
    let mut collector = PageCollector::new();
    let asked = query_string(&page_query(&request, collector.page));
    let step = collector.accept(page_named(goout_api_resp_file));
    assert!(matches!(step, Ok(NextStep::Finished)));
    for schedule in &collector.schedules {
        assert!(schedule.is_valid());
        assert!(can_split(schedule));
    }
    (200, "text/calendar", generate(collector.schedules, &request), Some(asked))
}

fn invoke_serve(path: &str, expected_ical_file: &str) {
    invoke_serve_ex(
        path,
        "tag=liked&user=43224&page=1&language=en&source=goout.strohel.eu",
        "events.json",
        expected_ical_file,
    )
}

fn invoke_serve_ex(
    path: &str,
    goout_api_params: &str,
    goout_api_resp_file: &str,
    expected_ical_file: &str,
) {
    let (status, content_type, body, asked) = answer(path, goout_api_resp_file);
    assert_eq!(
        (status, content_type, body.as_str()),
        (200, "text/calendar", expected_in(expected_ical_file))
    );
    assert_eq!(asked.unwrap(), goout_api_params);
}

fn invoke_serve_lowlevel(
    path: &str,
    expected_status: Status,
    expected_content_type: &str,
    expected_body: &str,
) {
    let (status, content_type, body, _) = answer(path, "events.json");
    assert_eq!(
        (status, content_type, body.as_str()),
        (expected_status.code(), expected_content_type, expected_body)
    );
}

#[test]
fn test_serve() {
    invoke_serve(
        "/services/feeder/usercalendar.ics?id=43224&language=en",
        "test_data/expected_nonsplit.ical",
    );
}

#[test]
fn test_serve_longterm_preserve() {
    invoke_serve(
        "/services/feeder/usercalendar.ics?id=43224&language=en&longterm=preserve",
        "test_data/expected_nonsplit.ical",
    );
}

#[test]
fn test_serve_longterm_split() {
    invoke_serve(
        "/services/feeder/usercalendar.ics?id=43224&language=en&longterm=split",
        "test_data/expected_split.ical",
    );
}

#[test]
fn test_serve_longterm_aggregate() {
    invoke_serve(
        "/services/feeder/usercalendar.ics?id=43224&language=en&longterm=aggregate",
        "test_data/expected_aggregate.ical",
    );
}

#[test]
fn test_serve_split_false() {
    invoke_serve(
        "/services/feeder/usercalendar.ics?id=43224&language=en&split=false",
        "test_data/expected_nonsplit.ical",
    );
}

#[test]
fn test_serve_split_true() {
    invoke_serve(
        "/services/feeder/usercalendar.ics?id=43224&language=en&split=true",
        "test_data/expected_split.ical",
    );
}

#[test]
fn test_serve_after() {
    invoke_serve_ex(
        "/services/feeder/usercalendar.ics?id=43224&language=en&after=2020-04-01",
        "tag=liked&user=43224&page=1&language=en&source=goout.strohel.eu&after=2020-04-01",
        "events_empty.json",
        "test_data/expected_empty.ical",
    );
}

#[test]
fn test_serve_split_true_after() {
    invoke_serve_ex(
        "/services/feeder/usercalendar.ics?id=43224&split=true&language=en&after=2020-04-01",
        "tag=liked&user=43224&page=1&language=en&source=goout.strohel.eu&after=2020-04-01",
        "events_empty.json",
        "test_data/expected_empty.ical",
    );
}

#[test]
fn test_serve_extraparam() {
    invoke_serve(
        "/services/feeder/usercalendar.ics?id=43224&language=en&extraparam=value",
        "test_data/expected_nonsplit.ical",
    );
}

#[test]
fn test_serve_split_true_extraparam() {
    invoke_serve(
        "/services/feeder/usercalendar.ics?id=43224&language=en&extraparam=value&split=true",
        "test_data/expected_split.ical",
    );
}

#[test]
fn test_invalid_serve_no_id() {
    invoke_serve_lowlevel(
        "/services/feeder/usercalendar.ics?language=en",
        Status::BadRequest,
        "text/plain; charset=utf-8",
        "Bad request: Missing(RawStr(\"id\")) (see https://api.rocket.rs/v0.4/rocket/request/enum.FormParseError.html)\n"
    );
}

#[test]
fn test_invalid_serve_no_language() {
    invoke_serve_lowlevel(
        "/services/feeder/usercalendar.ics?id=123",
        Status::BadRequest,
        "text/plain; charset=utf-8",
        "Bad request: Missing(RawStr(\"language\")) (see https://api.rocket.rs/v0.4/rocket/request/enum.FormParseError.html)\n"
    );
}

#[test]
fn test_invalid_serve_bad_id() {
    invoke_serve_lowlevel(
        "/services/feeder/usercalendar.ics?id=nckcd&language=cs",
        Status::BadRequest,
        "text/plain; charset=utf-8",
        "Bad request: BadValue(RawStr(\"id\"), RawStr(\"nckcd\")) (see https://api.rocket.rs/v0.4/rocket/request/enum.FormParseError.html)\n"
    );
}

#[test]
fn test_invalid_serve_bad_split() {
    invoke_serve_lowlevel(
        "/services/feeder/usercalendar.ics?id=123&language=cs&split=gogo",
        Status::BadRequest,
        "text/plain; charset=utf-8",
        "Bad request: BadValue(RawStr(\"split\"), RawStr(\"gogo\")) (see https://api.rocket.rs/v0.4/rocket/request/enum.FormParseError.html)\n"
    );
}

#[test]
fn test_invalid_serve_both_split_longterm() {
    invoke_serve_lowlevel(
        "/services/feeder/usercalendar.ics?id=123&language=cs&split=true&longterm=split",
        Status::BadRequest,
        "text/plain; charset=utf-8",
        "Bad request: Please drop the deprecated 'split' parameter when using 'longterm'.\n",
    );
}

#[test]
fn test_invalid_serve_bad_longterm() {
    invoke_serve_lowlevel(
        "/services/feeder/usercalendar.ics?id=123&language=cs&longterm=gagagogo",
        Status::BadRequest,
        "text/plain; charset=utf-8",
        "Bad request: BadValue(RawStr(\"longterm\"), RawStr(\"gagagogo\")) (see https://api.rocket.rs/v0.4/rocket/request/enum.FormParseError.html)\n"
    );
}
