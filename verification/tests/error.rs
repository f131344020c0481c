use goout_calendar::calendar::serve;
use goout_calendar::calendar::LongtermHandling;
use goout_calendar::encode::calendar_string;
use goout_calendar::entry::CalendarEntry;
use goout_calendar::entry::EntryTime;
use goout_calendar::error::FormParseError;
use goout_calendar::error::HandlerError;
use goout_calendar::error::Status;
use goout_calendar::time::Timestamp;

#[test]
fn statuses_have_their_codes() {
    assert_eq!(Status::BadRequest.code(), 400);
    assert_eq!(Status::InternalServerError.code(), 500);
}

#[test]
fn a_handler_error_is_a_status_and_a_text() {
    let error = HandlerError::new(Status::InternalServerError, "text".to_string());
    assert_eq!(error.status, Status::InternalServerError);
    assert_eq!(error.text, "text");
    let error = HandlerError::new(Status::BadRequest, String::new());
    assert_eq!(error.status, Status::BadRequest);
    assert_eq!(error.text, "");
}

#[test]
fn a_failure_inside_is_not_explained() {
    let error = HandlerError::internal();
    assert_eq!(error.status, Status::InternalServerError);
    assert_eq!(error.text, "Something went wrong.");
}

#[test]
fn a_parse_error_is_shown_with_its_strings_quoted() {
    let error = HandlerError::from(FormParseError::BadValue("a\"b".to_string(), "line\nbreak\\".to_string()));
    assert_eq!(error.status, Status::BadRequest);
    assert_eq!(
        error.text,
        "Bad request: BadValue(RawStr(\"a\\\"b\"), RawStr(\"line\\nbreak\\\\\")) (see https://api.rocket.rs/v0.4/rocket/request/enum.FormParseError.html)\n"
    );
    let error = HandlerError::from(FormParseError::Missing(String::new()));
    assert_eq!(
        error.text,
        "Bad request: Missing(RawStr(\"\")) (see https://api.rocket.rs/v0.4/rocket/request/enum.FormParseError.html)\n"
    );
}

#[test]
fn without_either_parameter_long_term_occurrences_are_preserved() {
    let request = serve(5, "cs".to_string(), Some("x".to_string()), None, None).unwrap();
    assert_eq!(request.id, 5);
    assert_eq!(request.language, "cs");
    assert_eq!(request.after, Some("x".to_string()));
    assert_eq!(request.longterm, LongtermHandling::Preserve);
}

#[test]
fn the_parameter_that_is_there_decides() {
    let chosen = |split, longterm| serve(1, "en".to_string(), None, split, longterm).unwrap().longterm;
    assert_eq!(chosen(Some(Ok(true)), None), LongtermHandling::Split);
    assert_eq!(chosen(Some(Ok(false)), None), LongtermHandling::Preserve);
    assert_eq!(chosen(None, Some(Ok(LongtermHandling::Preserve))), LongtermHandling::Preserve);
    assert_eq!(chosen(None, Some(Ok(LongtermHandling::Split))), LongtermHandling::Split);
    assert_eq!(chosen(None, Some(Ok(LongtermHandling::Aggregate))), LongtermHandling::Aggregate);
}

#[test]
fn both_parameters_together_are_refused_whatever_they_say() {
    let text = "Bad request: Please drop the deprecated 'split' parameter when using 'longterm'.\n";
    let cases: Vec<(Option<Result<bool, String>>, Option<Result<LongtermHandling, String>>)> = vec![
        (Some(Ok(false)), Some(Ok(LongtermHandling::Preserve))),
        (Some(Ok(true)), Some(Err("x".to_string()))),
        (Some(Err("y".to_string())), Some(Ok(LongtermHandling::Aggregate))),
        (Some(Err("y".to_string())), Some(Err("x".to_string()))),
    ];
    for (split, longterm) in cases {
        let refusal = serve(1, "en".to_string(), None, split, longterm).unwrap_err();
        assert_eq!(refusal.status, Status::BadRequest);
        assert_eq!(refusal.text, text);
    }
}

#[test]
fn a_parameter_that_cannot_be_read_is_refused_by_name() {
    let refusal = serve(1, "en".to_string(), None, Some(Err("maybe".to_string())), None).unwrap_err();
    assert_eq!(refusal.status, Status::BadRequest);
    assert_eq!(
        refusal.text,
        "Bad request: BadValue(RawStr(\"split\"), RawStr(\"maybe\")) (see https://api.rocket.rs/v0.4/rocket/request/enum.FormParseError.html)\n"
    );
    let refusal = serve(1, "en".to_string(), None, None, Some(Err("".to_string()))).unwrap_err();
    assert_eq!(
        refusal.text,
        "Bad request: BadValue(RawStr(\"longterm\"), RawStr(\"\")) (see https://api.rocket.rs/v0.4/rocket/request/enum.FormParseError.html)\n"
    );
}

#[test]
fn a_calendar_without_entries_is_an_empty_calendar() {
    assert_eq!(
        calendar_string(&vec![]),
        "BEGIN:VCALENDAR\r\nVERSION:2.0\r\nPRODID:ICALENDAR-RS\r\nCALSCALE:GREGORIAN\r\nEND:VCALENDAR\r\n"
    );
}

#[test]
fn an_entry_without_detail_is_written_without_address_status_and_place() {
    let entry = CalendarEntry {
        uid: "LongTermSchedule2020-01-05@goout.net".to_string(),
        created: Timestamp::new(1_577_862_000, -3_600).unwrap(),
        start: EntryTime::Date(737_429),
        end: EntryTime::Moment(1_578_182_400),
        summary: "2 long-term events".to_string(),
        description: "first\n\nsecond".to_string(),
        detail: None,
    };
    assert_eq!(
        calendar_string(&vec![entry]),
        "BEGIN:VCALENDAR\r\nVERSION:2.0\r\nPRODID:ICALENDAR-RS\r\nCALSCALE:GREGORIAN\r\n\
         BEGIN:VEVENT\r\n\
         DESCRIPTION:first\\n\\nsecond\r\n\
         DTEND:20200105T000000Z\r\n\
         DTSTAMP:20200101T060000\r\n\
         DTSTART;VALUE=DATE:20200105\r\n\
         SUMMARY:2 long-term events\r\n\
         UID:LongTermSchedule2020-01-05@goout.net\r\n\
         END:VEVENT\r\n\
         END:VCALENDAR\r\n"
    );
}
