//! From the pages of a listing to the occurrences they describe.
//!
//! A page names venues, performers and events by id and brings the records
//! along. Resolving a page replaces each id by the record, shared among all
//! occurrences that name it, and refuses a page that names a record it does
//! not bring.

use crate::calendar::CalendarRequest;
use crate::calendar::LongtermHandling;
use crate::encode::all_properties;
use crate::encode::calendar_string;
use crate::encode::calendar_text;
use crate::policy::all_splittable;
use crate::policy::generate_events;
use crate::policy::generated_entries;
use crate::model::EventRecord;
use crate::model::Occurrence;
use crate::model::OccurrenceView;
use crate::model::Performer;
use crate::model::Venue;
use crate::model::all_wf;
use crate::model::occurrence_views;
use crate::model::performer_views;
use crate::text::decimal;
use crate::text::decimal_string;
use crate::time::Timestamp;
use std::collections::HashMap;
use std::rc::Rc;
use vstd::prelude::*;
use vstd::std_specs::hash::axiom_spec_hash_map_iter;
use vstd::std_specs::hash::spec_hash_map_iter;
use vstd::std_specs::iter::IteratorSpec;
use vstd::string::*;

verus! {

/// An occurrence as a page carries it: the records it refers to are named
/// by their ids.
#[derive(Debug)]
pub struct ScheduleOnWire {
    pub id: u64,
    pub event_id: u64,
    pub url: String,
    pub cancelled: bool,
    pub start: Timestamp,
    pub end: Timestamp,
    pub uploaded_on: Timestamp,
    pub hour_ignored: bool,
    pub is_long_term: bool,
    pub pricing: String,
    pub currency: String,
    pub venue_id: u64,
    pub performer_ids: Vec<u64>,
}

/// One page of a listing. `message` is the page's message as JSON text.
#[derive(Debug)]
pub struct EventsResponse {
    pub status: u16,
    pub message: String,
    pub has_next: bool,
    pub schedule: Vec<ScheduleOnWire>,
    pub venues: HashMap<u64, Venue>,
    pub performers: HashMap<u64, Performer>,
    pub events: HashMap<u64, EventRecord>,
}

/// Why a listing could not be turned into occurrences.
#[derive(Debug)]
pub enum GenerationError {
    /// The page's message is not the string "OK".
    UnexpectedMessage(String),
    /// The page's status is not 200.
    UnexpectedStatus(u16),
    /// A schedule names a venue that its page does not bring.
    MissingVenue { venue_id: u64, schedule_id: u64 },
    /// A schedule names a performer that its page does not bring.
    MissingPerformer { performer_id: u64, schedule_id: u64 },
    /// A schedule names an event that its page does not bring.
    MissingEvent { event_id: u64, schedule_id: u64 },
    /// A schedule ends before it starts, or one of its instants is not valid.
    InvalidSpan { schedule_id: u64 },
    /// The listing goes on after the last page that has a number.
    TooManyPages,
}

/// What a `GenerationError` holds, as plain text.
pub enum GenerationErrorView {
    UnexpectedMessage(Seq<char>),
    UnexpectedStatus(u16),
    MissingVenue { venue_id: u64, schedule_id: u64 },
    MissingPerformer { performer_id: u64, schedule_id: u64 },
    MissingEvent { event_id: u64, schedule_id: u64 },
    InvalidSpan { schedule_id: u64 },
    TooManyPages,
}

impl View for GenerationError {
    type V = GenerationErrorView;

    open spec fn view(&self) -> GenerationErrorView {
        match *self {
            GenerationError::UnexpectedMessage(message) => GenerationErrorView::UnexpectedMessage(
                message@,
            ),
            GenerationError::UnexpectedStatus(status) => GenerationErrorView::UnexpectedStatus(
                status,
            ),
            GenerationError::MissingVenue { venue_id, schedule_id } => {
                GenerationErrorView::MissingVenue { venue_id, schedule_id }
            },
            GenerationError::MissingPerformer { performer_id, schedule_id } => {
                GenerationErrorView::MissingPerformer { performer_id, schedule_id }
            },
            GenerationError::MissingEvent { event_id, schedule_id } => {
                GenerationErrorView::MissingEvent { event_id, schedule_id }
            },
            GenerationError::InvalidSpan { schedule_id } => GenerationErrorView::InvalidSpan {
                schedule_id,
            },
            GenerationError::TooManyPages => GenerationErrorView::TooManyPages,
        }
    }
}

/// A sentence that names record `kind` number `id` as missing for schedule
/// `schedule_id`.
pub open spec fn missing_text(kind: Seq<char>, id: u64, schedule_id: u64) -> Seq<char> {
    kind + "#"@ + decimal(id as nat) + " referenced by Schedule#"@ + decimal(schedule_id as nat)
        + " not in API response."@
}

/// The error in words.
pub open spec fn description_of(error: GenerationErrorView) -> Seq<char> {
    match error {
        GenerationErrorView::UnexpectedMessage(message) => "Expected message OK, got "@ + message
            + "."@,
        GenerationErrorView::UnexpectedStatus(status) => "Expected status 200, got "@ + decimal(
            status as nat,
        ) + "."@,
        GenerationErrorView::MissingVenue { venue_id, schedule_id } => missing_text(
            "Venue"@,
            venue_id,
            schedule_id,
        ),
        GenerationErrorView::MissingPerformer { performer_id, schedule_id } => missing_text(
            "Performer"@,
            performer_id,
            schedule_id,
        ),
        GenerationErrorView::MissingEvent { event_id, schedule_id } => missing_text(
            "Event"@,
            event_id,
            schedule_id,
        ),
        GenerationErrorView::InvalidSpan { schedule_id } => "Schedule#"@ + decimal(
            schedule_id as nat,
        ) + " ends before it starts."@,
        GenerationErrorView::TooManyPages => "More pages than page numbers."@,
    }
}

fn missing(kind: &str, id: u64, schedule_id: u64) -> (text: String)
    ensures
        text@ == missing_text(kind@, id, schedule_id),
{
    let mut text = String::from_str(kind);
    text.append("#");
    text.append(decimal_string(id).as_str());
    text.append(" referenced by Schedule#");
    text.append(decimal_string(schedule_id).as_str());
    text.append(" not in API response.");
    text
}

impl GenerationError {
    /// The error in words.
    pub fn describe(&self) -> (text: String)
        ensures
            text@ == description_of(self@),
    {
        match self {
            GenerationError::UnexpectedMessage(message) => {
                let mut text = String::from_str("Expected message OK, got ");
                text.append(message.as_str());
                text.append(".");
                text
            },
            GenerationError::UnexpectedStatus(status) => {
                let mut text = String::from_str("Expected status 200, got ");
                text.append(decimal_string(*status as u64).as_str());
                text.append(".");
                text
            },
            GenerationError::MissingVenue { venue_id, schedule_id } => missing(
                "Venue",
                *venue_id,
                *schedule_id,
            ),
            GenerationError::MissingPerformer { performer_id, schedule_id } => missing(
                "Performer",
                *performer_id,
                *schedule_id,
            ),
            GenerationError::MissingEvent { event_id, schedule_id } => missing(
                "Event",
                *event_id,
                *schedule_id,
            ),
            GenerationError::InvalidSpan { schedule_id } => {
                let mut text = String::from_str("Schedule#");
                text.append(decimal_string(*schedule_id).as_str());
                text.append(" ends before it starts.");
                text
            },
            GenerationError::TooManyPages => String::from_str("More pages than page numbers."),
        }
    }
}

/// What is wrong with the status of a page, if anything: first its message,
/// which has to be the string "OK", then its status, which has to be 200.
pub open spec fn status_fault(message: Seq<char>, status: u16) -> Option<GenerationErrorView> {
    if message != "\"OK\""@ {
        Some(GenerationErrorView::UnexpectedMessage(message))
    } else if status != 200 {
        Some(GenerationErrorView::UnexpectedStatus(status))
    } else {
        None
    }
}

impl EventsResponse {
    /// Refuses a page that does not say that all went well.
    pub fn error_for_status(&self) -> (checked: Result<(), GenerationError>)
        ensures
            match status_fault(self.message@, self.status) {
                Some(fault) => checked is Err && checked->Err_0@ == fault,
                None => checked is Ok,
            },
    {
        let ok = String::from_str("\"OK\"");
        if !self.message.eq(&ok) {
            return Err(GenerationError::UnexpectedMessage(self.message.clone()));
        }
        if self.status != 200 {
            return Err(GenerationError::UnexpectedStatus(self.status));
        }
        Ok(())
    }
}

/// The same records under the same ids, each ready to be shared.
pub fn reference_count_map<T>(input: HashMap<u64, T>) -> (output: HashMap<u64, Rc<T>>)
    ensures
        output@.dom() == input@.dom(),
        forall|id: u64| input@.contains_key(id) ==> *(#[trigger] output@[id]) == input@[id],
{
    let ghost all = input@;
    let mut input = input;
    let mut ids: Vec<u64> = Vec::new();
    let ghost pairs = spec_hash_map_iter(&input).remaining();
    for kv in it: input.iter()
        invariant
            it.seq() == pairs,
            ids@.len() == it.index(),
            forall|i: int| 0 <= i < ids@.len() ==> ids@[i] == *pairs[i].0,
    {
        ids.push(*kv.0);
    }
    proof {
        axiom_spec_hash_map_iter(&input);
        assert forall|id: u64| all.contains_key(id) implies ids@.contains(id) by {
            assert(pairs.contains((&id, &all[id])));
            let i = choose|i: int| 0 <= i < pairs.len() && pairs[i] == (&id, &all[id]);
            assert(ids@[i] == id);
        }
    }
    let mut output: HashMap<u64, Rc<T>> = HashMap::new();
    let mut i: usize = 0;
    while i < ids.len()
        invariant
            i <= ids.len(),
            forall|id: u64| #[trigger] all.contains_key(id) ==> ids@.contains(id),
            forall|id: u64| #[trigger]
                output@.contains_key(id) ==> all.contains_key(id) && *output@[id] == all[id],
            forall|id: u64| #[trigger]
                input@.contains_key(id) ==> all.contains_key(id) && input@[id] == all[id],
            forall|id: u64|
                all.contains_key(id) ==> #[trigger] output@.contains_key(id)
                    || input@.contains_key(id),
            forall|j: int| 0 <= j < i ==> !input@.contains_key(#[trigger] ids@[j]),
        decreases ids.len() - i,
    {
        let id = ids[i];
        match input.remove(&id) {
            Some(record) => {
                output.insert(id, Rc::new(record));
            },
            None => {},
        }
        i += 1;
    }
    proof {
        assert forall|id: u64| all.contains_key(id) implies output@.contains_key(id) by {
            assert(ids@.contains(id));
            let j = choose|j: int| 0 <= j < ids@.len() && ids@[j] == id;
            assert(!input@.contains_key(ids@[j]));
        }
        assert(output@.dom() =~= all.dom());
    }
    output
}

/// The first of `ids` that `performers` does not hold, if there is one.
pub open spec fn first_missing(ids: Seq<u64>, performers: Map<u64, Performer>) -> Option<u64>
    decreases ids.len(),
{
    if ids.len() == 0 {
        None
    } else {
        match first_missing(ids.drop_last(), performers) {
            Some(id) => Some(id),
            None => if performers.contains_key(ids.last()) {
                None
            } else {
                Some(ids.last())
            },
        }
    }
}

/// The occurrence that schedule `w` of page `page` describes, with the
/// records of the page in the place of their ids.
pub open spec fn resolved(w: ScheduleOnWire, page: EventsResponse) -> OccurrenceView {
    OccurrenceView {
        id: w.id,
        event: page.events@[w.event_id]@,
        url: w.url@,
        cancelled: w.cancelled,
        start: w.start,
        end: w.end,
        uploaded_on: w.uploaded_on,
        hour_ignored: w.hour_ignored,
        is_long_term: w.is_long_term,
        pricing: w.pricing@,
        currency: w.currency@,
        venue: page.venues@[w.venue_id]@,
        performers: w.performer_ids@.map_values(|id: u64| page.performers@[id]@),
    }
}

/// What is wrong with schedule `w` of page `page`, if anything: the venue
/// it names is missing; or else one of its performers, the first such; or else
/// its event; or else it does not describe a well-formed occurrence.
pub open spec fn fault_of(w: ScheduleOnWire, page: EventsResponse) -> Option<GenerationErrorView> {
    if !page.venues@.contains_key(w.venue_id) {
        Some(GenerationErrorView::MissingVenue { venue_id: w.venue_id, schedule_id: w.id })
    } else if first_missing(w.performer_ids@, page.performers@) is Some {
        Some(
            GenerationErrorView::MissingPerformer {
                performer_id: first_missing(w.performer_ids@, page.performers@)->0,
                schedule_id: w.id,
            },
        )
    } else if !page.events@.contains_key(w.event_id) {
        Some(GenerationErrorView::MissingEvent { event_id: w.event_id, schedule_id: w.id })
    } else if !resolved(w, page).wf() {
        Some(GenerationErrorView::InvalidSpan { schedule_id: w.id })
    } else {
        None
    }
}

/// What is wrong with the first of `schedules` with which anything is.
pub open spec fn first_fault(schedules: Seq<ScheduleOnWire>, page: EventsResponse) -> Option<
    GenerationErrorView,
>
    decreases schedules.len(),
{
    if schedules.len() == 0 {
        None
    } else {
        match first_fault(schedules.drop_last(), page) {
            Some(fault) => Some(fault),
            None => fault_of(schedules.last(), page),
        }
    }
}

/// The occurrences that `schedules` describe, in their order.
pub open spec fn resolved_all(schedules: Seq<ScheduleOnWire>, page: EventsResponse) -> Seq<
    OccurrenceView,
> {
    schedules.map_values(|w: ScheduleOnWire| resolved(w, page))
}

/// The performers that `ids` name, or the first id that names none.
fn resolve_performers(ids: &Vec<u64>, performer_map: &HashMap<u64, Rc<Performer>>, Ghost(
    performers,
): Ghost<Map<u64, Performer>>) -> (found: Result<Vec<Rc<Performer>>, u64>)
    requires
        performer_map@.dom() == performers.dom(),
        forall|id: u64|
            performers.contains_key(id) ==> *(#[trigger] performer_map@[id]) == performers[id],
    ensures
        match first_missing(ids@, performers) {
            Some(id) => found == Err::<Vec<Rc<Performer>>, u64>(id),
            None => found is Ok && performer_views(found->Ok_0@) == ids@.map_values(
                |id: u64| performers[id]@,
            ),
        },
{
    let mut found: Vec<Rc<Performer>> = Vec::new();
    let mut i: usize = 0;
    while i < ids.len()
        invariant
            i <= ids.len(),
            performer_map@.dom() == performers.dom(),
            forall|id: u64|
                performers.contains_key(id) ==> *(#[trigger] performer_map@[id])
                    == performers[id],
            first_missing(ids@.take(i as int), performers) is None,
            found@.len() == i,
            forall|j: int| 0 <= j < i ==> (#[trigger] found@[j])@ == performers[ids@[j]]@,
        decreases ids.len() - i,
    {
        assert(ids@.take(i + 1).drop_last() =~= ids@.take(i as int));
        assert(ids@.take(i + 1).last() == ids@[i as int]);
        match performer_map.get(&ids[i]) {
            Some(performer) => {
                assert(performers.dom().contains(ids@[i as int]));
                found.push(Rc::clone(performer));
            },
            None => {
                assert(!performers.dom().contains(ids@[i as int]));
                proof {
                    lemma_first_missing_stays(ids@, performers, i + 1);
                }
                return Err(ids[i]);
            },
        }
        i += 1;
    }
    assert(ids@.take(i as int) =~= ids@);
    assert(performer_views(found@) =~= ids@.map_values(|id: u64| performers[id]@));
    Ok(found)
}

/// An id that is missing among the first `n` is the first missing of all.
proof fn lemma_first_missing_stays(ids: Seq<u64>, performers: Map<u64, Performer>, n: int)
    requires
        0 <= n <= ids.len(),
        first_missing(ids.take(n), performers) is Some,
    ensures
        first_missing(ids, performers) == first_missing(ids.take(n), performers),
    decreases ids.len() - n,
{
    if n < ids.len() {
        assert(ids.take(n + 1).drop_last() =~= ids.take(n));
        lemma_first_missing_stays(ids, performers, n + 1);
    } else {
        assert(ids.take(n) =~= ids);
    }
}

/// A fault among the first `n` schedules is the first fault of all.
proof fn lemma_first_fault_stays(schedules: Seq<ScheduleOnWire>, page: EventsResponse, n: int)
    requires
        0 <= n <= schedules.len(),
        first_fault(schedules.take(n), page) is Some,
    ensures
        first_fault(schedules, page) == first_fault(schedules.take(n), page),
    decreases schedules.len() - n,
{
    if n < schedules.len() {
        assert(schedules.take(n + 1).drop_last() =~= schedules.take(n));
        lemma_first_fault_stays(schedules, page, n + 1);
    } else {
        assert(schedules.take(n) =~= schedules);
    }
}

/// The occurrences that the schedules of `response` describe, in their
/// order, each with the venue, the performers and the event that it names;
/// or what is wrong with the first schedule with which anything is.
pub fn response_to_schedules(response: EventsResponse) -> (resolved: Result<
    Vec<Occurrence>,
    GenerationError,
>)
    ensures
        match first_fault(response.schedule@, response) {
            Some(fault) => resolved is Err && resolved->Err_0@ == fault,
            None => resolved is Ok && occurrence_views(resolved->Ok_0@) == resolved_all(
                response.schedule@,
                response,
            ) && all_wf(occurrence_views(resolved->Ok_0@)),
        },
{
    let ghost page = response;
    let EventsResponse { status, message, has_next, schedule, venues, performers, events } =
        response;
    let venue_map = reference_count_map(venues);
    let performer_map = reference_count_map(performers);
    let event_map = reference_count_map(events);

    let mut result: Vec<Occurrence> = Vec::new();
    let mut i: usize = 0;
    while i < schedule.len()
        invariant
            i <= schedule.len(),
            page == response,
            schedule == page.schedule,
            venue_map@.dom() == page.venues@.dom(),
            forall|id: u64|
                page.venues@.contains_key(id) ==> *(#[trigger] venue_map@[id]) == page.venues@[id],
            performer_map@.dom() == page.performers@.dom(),
            forall|id: u64|
                page.performers@.contains_key(id) ==> *(#[trigger] performer_map@[id])
                    == page.performers@[id],
            event_map@.dom() == page.events@.dom(),
            forall|id: u64|
                page.events@.contains_key(id) ==> *(#[trigger] event_map@[id]) == page.events@[id],
            first_fault(schedule@.take(i as int), page) is None,
            result@.len() == i,
            forall|j: int| 0 <= j < i ==> (#[trigger] result@[j])@ == resolved(schedule@[j], page),
            forall|j: int| 0 <= j < i ==> (#[trigger] result@[j]).wf(),
        decreases schedule.len() - i,
    {
        let on_wire = &schedule[i];
        let ghost w = schedule@[i as int];
        assert(schedule@.take(i + 1).drop_last() =~= schedule@.take(i as int));
        assert(schedule@.take(i + 1).last() == w);
        let venue = match venue_map.get(&on_wire.venue_id) {
            Some(venue) => Rc::clone(venue),
            None => {
                assert(!page.venues@.dom().contains(w.venue_id));
                proof {
                    lemma_first_fault_stays(schedule@, page, i + 1);
                }
                return Err(
                    GenerationError::MissingVenue {
                        venue_id: on_wire.venue_id,
                        schedule_id: on_wire.id,
                    },
                );
            },
        };
        assert(page.venues@.dom().contains(w.venue_id));
        let performers = match resolve_performers(
            &on_wire.performer_ids,
            &performer_map,
            Ghost(page.performers@),
        ) {
            Ok(performers) => performers,
            Err(performer_id) => {
                proof {
                    lemma_first_fault_stays(schedule@, page, i + 1);
                }
                return Err(
                    GenerationError::MissingPerformer { performer_id, schedule_id: on_wire.id },
                );
            },
        };
        let event = match event_map.get(&on_wire.event_id) {
            Some(event) => Rc::clone(event),
            None => {
                assert(!page.events@.dom().contains(w.event_id));
                proof {
                    lemma_first_fault_stays(schedule@, page, i + 1);
                }
                return Err(
                    GenerationError::MissingEvent {
                        event_id: on_wire.event_id,
                        schedule_id: on_wire.id,
                    },
                );
            },
        };
        assert(page.events@.dom().contains(w.event_id));
        let occurrence = Occurrence {
            id: on_wire.id,
            event,
            url: on_wire.url.clone(),
            cancelled: on_wire.cancelled,
            start: on_wire.start,
            end: on_wire.end,
            uploaded_on: on_wire.uploaded_on,
            hour_ignored: on_wire.hour_ignored,
            is_long_term: on_wire.is_long_term,
            pricing: on_wire.pricing.clone(),
            currency: on_wire.currency.clone(),
            venue,
            performers,
        };
        assert(occurrence@ == resolved(w, page));
        if !occurrence.is_valid() {
            proof {
                lemma_first_fault_stays(schedule@, page, i + 1);
            }
            return Err(GenerationError::InvalidSpan { schedule_id: on_wire.id });
        }
        result.push(occurrence);
        i += 1;
    }
    assert(schedule@.take(i as int) =~= schedule@);
    assert(occurrence_views(result@) =~= resolved_all(schedule@, page));
    Ok(result)
}

/// The parameters of the query for page `page` of the listing that `cal_req`
/// asks for, as pairs of name and value, in the order in which they are sent.
pub open spec fn query_of(
    id: u64,
    language: Seq<char>,
    after: Option<Seq<char>>,
    page: u8,
) -> Seq<(Seq<char>, Seq<char>)> {
    seq![
        ("tag"@, "liked"@),
        ("user"@, decimal(id as nat)),
        ("page"@, decimal(page as nat)),
        ("language"@, language),
        ("source"@, "goout.strohel.eu"@),
    ] + match after {
        Some(cursor) => seq![("after"@, cursor)],
        None => Seq::empty(),
    }
}

/// Names and values as plain text.
pub open spec fn pair_views(pairs: Seq<(String, String)>) -> Seq<(Seq<char>, Seq<char>)> {
    pairs.map_values(|p: (String, String)| (p.0@, p.1@))
}

fn pair(name: &str, value: &str) -> (made: (String, String))
    ensures
        made.0@ == name@,
        made.1@ == value@,
{
    (String::from_str(name), String::from_str(value))
}

/// The parameters of the query for page `page` of the listing that `cal_req`
/// asks for.
pub fn page_query(cal_req: &CalendarRequest, page: u8) -> (params: Vec<(String, String)>)
    ensures
        pair_views(params@) == query_of(
            cal_req.id,
            cal_req.language@,
            match cal_req.after {
                Some(cursor) => Some(cursor@),
                None => None,
            },
            page,
        ),
{
    let mut params: Vec<(String, String)> = Vec::new();
    params.push(pair("tag", "liked"));
    params.push(pair("user", decimal_string(cal_req.id).as_str()));
    params.push(pair("page", decimal_string(page as u64).as_str()));
    params.push(pair("language", cal_req.language.as_str()));
    params.push(pair("source", "goout.strohel.eu"));
    match &cal_req.after {
        Some(after) => {
            params.push(pair("after", after.as_str()));
        },
        None => {},
    }
    assert(pair_views(params@) =~= query_of(
        cal_req.id,
        cal_req.language@,
        match cal_req.after {
            Some(cursor) => Some(cursor@),
            None => None,
        },
        page,
    ));
    params
}

/// What to do after a page has been taken in.
#[derive(Clone, Copy, Debug, PartialEq, Eq, Structural)]
pub enum NextStep {
    /// Fetch the page with this number.
    Fetch(u8),
    /// The listing is complete.
    Finished,
}

/// The occurrences of the pages taken in so far, and the number of the page
/// that comes next.
#[derive(Debug)]
pub struct PageCollector {
    pub schedules: Vec<Occurrence>,
    pub page: u8,
}

/// What taking in page `response` as page number `page` leads to: a refusal
/// of its status, or of its first faulty schedule, or of a listing that goes on
/// after page 255; else the next step.
pub open spec fn outcome(response: EventsResponse, page: u8) -> Result<
    NextStep,
    GenerationErrorView,
> {
    if status_fault(response.message@, response.status) is Some {
        Err(status_fault(response.message@, response.status)->0)
    } else if first_fault(response.schedule@, response) is Some {
        Err(first_fault(response.schedule@, response)->0)
    } else if !response.has_next {
        Ok(NextStep::Finished)
    } else if page == u8::MAX {
        Err(GenerationErrorView::TooManyPages)
    } else {
        Ok(NextStep::Fetch((page + 1) as u8))
    }
}

impl PageCollector {
    /// Nothing taken in yet; the first page is page 1.
    pub fn new() -> (collector: PageCollector)
        ensures
            collector.schedules@.len() == 0,
            collector.page == 1,
    {
        PageCollector { schedules: Vec::new(), page: 1 }
    }

    /// Takes in the page that was fetched under the number `self.page`. If
    /// the page is refused, nothing changes. Else its occurrences come behind
    /// those taken in before, and if the listing goes on, the page number
    /// grows by one.
    pub fn accept(&mut self, response: EventsResponse) -> (step: Result<NextStep, GenerationError>)
        requires
            all_wf(occurrence_views(old(self).schedules@)),
        ensures
            all_wf(occurrence_views(final(self).schedules@)),
            match outcome(response, old(self).page) {
                Err(fault) => step is Err && step->Err_0@ == fault && final(self).page == old(
                    self,
                ).page && occurrence_views(final(self).schedules@) == occurrence_views(
                    old(self).schedules@,
                ),
                Ok(next) => step == Ok::<NextStep, GenerationError>(next) && occurrence_views(
                    final(self).schedules@,
                ) == occurrence_views(old(self).schedules@) + resolved_all(
                    response.schedule@,
                    response,
                ) && final(self).page == match next {
                    NextStep::Fetch(page) => page,
                    NextStep::Finished => old(self).page,
                },
            },
    {
        match response.error_for_status() {
            Err(fault) => {
                return Err(fault);
            },
            Ok(()) => {},
        }
        let has_next = response.has_next;
        let ghost before = occurrence_views(self.schedules@);
        let mut more = match response_to_schedules(response) {
            Ok(more) => more,
            Err(fault) => {
                return Err(fault);
            },
        };
        if has_next && self.page == u8::MAX {
            return Err(GenerationError::TooManyPages);
        }
        let ghost added = occurrence_views(more@);
        self.schedules.append(&mut more);
        assert(occurrence_views(self.schedules@) =~= before + added);
        if has_next {
            self.page = self.page + 1;
            Ok(NextStep::Fetch(self.page))
        } else {
            Ok(NextStep::Finished)
        }
    }
}

/// The calendar of `schedules`, as the iCalendar text of the entries that
/// `cal_req` asks for.
pub fn generate(schedules: Vec<Occurrence>, cal_req: &CalendarRequest) -> (calendar: String)
    requires
        all_wf(occurrence_views(schedules@)),
        cal_req.longterm == LongtermHandling::Split ==> all_splittable(
            occurrence_views(schedules@),
        ),
    ensures
        calendar@ == calendar_text(
            all_properties(
                generated_entries(
                    occurrence_views(schedules@),
                    cal_req.language@,
                    cal_req.longterm,
                ),
            ),
        ),
{
    let entries = generate_events(schedules, cal_req);
    calendar_string(&entries)
}

} // verus!
