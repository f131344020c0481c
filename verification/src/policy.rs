//! The three treatments of long-term occurrences, and the choice among them.

use crate::aggregate::aggregate_entries;
use crate::aggregate::generate_events_aggregate;
use crate::calendar::CalendarRequest;
use crate::calendar::LongtermHandling;
use crate::entry::CalendarEntry;
use crate::entry::CalendarEntryView;
use crate::entry::all_entries_wf;
use crate::entry::entry_views;
use crate::model::Occurrence;
use crate::model::OccurrenceView;
use crate::model::all_wf;
use crate::model::occurrence_views;
use crate::render::EventPhase;
use crate::render::create_ical_event;
use crate::render::entry_of;
use vstd::prelude::*;
use vstd::string::*;

verus! {

/// What is added to the id of a long-term occurrence for the entry of its
/// first day.
pub const BEGIN_OFFSET: u64 = 1_000_000_000_000;

/// What is added to the id of a long-term occurrence for the entry of its
/// last day.
pub const END_OFFSET: u64 = 2_000_000_000_000;

/// One entry for each occurrence, in the order of the occurrences.
pub open spec fn preserve_entries(occs: Seq<OccurrenceView>, lang: Seq<char>) -> Seq<
    CalendarEntryView,
> {
    occs.map_values(|o: OccurrenceView| entry_of(o, lang))
}

/// One entry for each of `schedules`, long-term or not, in their order.
pub fn generate_events_preserve(schedules: Vec<Occurrence>, language: &str) -> (entries: Vec<
    CalendarEntry,
>)
    requires
        all_wf(occurrence_views(schedules@)),
    ensures
        entry_views(entries@) == preserve_entries(occurrence_views(schedules@), language@),
        all_entries_wf(entry_views(entries@)),
{
    let mut entries: Vec<CalendarEntry> = Vec::new();
    let mut i: usize = 0;
    let ghost occs = occurrence_views(schedules@);
    while i < schedules.len()
        invariant
            i <= schedules.len(),
            occs == occurrence_views(schedules@),
            all_wf(occs),
            entries@.len() == i,
            forall|j: int| 0 <= j < i ==> (#[trigger] entries@[j])@ == entry_of(occs[j], language@),
            forall|j: int| 0 <= j < i ==> (#[trigger] entries@[j])@.wf(),
        decreases schedules.len() - i,
    {
        assert(occs[i as int].wf());
        entries.push(create_ical_event(&schedules[i], language));
        i += 1;
    }
    assert(entry_views(entries@) =~= preserve_entries(occs, language@));
    entries
}

/// A long-term occurrence cut down to its first day: it ends with the last
/// second of the day it starts on, and carries its own id and the label of a
/// beginning in front of its name.
pub open spec fn begin_of(o: OccurrenceView, lang: Seq<char>) -> OccurrenceView {
    o.derived(
        (o.id + BEGIN_OFFSET) as u64,
        o.start,
        o.start.day_end(),
        EventPhase::Begin.label(lang) + o.event.name,
    )
}

/// A long-term occurrence cut down to its last day: it starts with the first
/// second of the day it ends on, and carries its own id and the label of an
/// end in front of its name.
pub open spec fn end_of(o: OccurrenceView, lang: Seq<char>) -> OccurrenceView {
    o.derived(
        (o.id + END_OFFSET) as u64,
        o.end.day_start(),
        o.end,
        EventPhase::End.label(lang) + o.event.name,
    )
}

/// The entries that stand for one occurrence when long-term occurrences are
/// split: its own entry, or those of its first and of its last day.
pub open spec fn split_one(o: OccurrenceView, lang: Seq<char>) -> Seq<CalendarEntryView> {
    if o.is_long_term {
        seq![entry_of(begin_of(o, lang), lang), entry_of(end_of(o, lang), lang)]
    } else {
        seq![entry_of(o, lang)]
    }
}

/// The entries of `occs` when long-term occurrences are split, in the order
/// of the occurrences.
pub open spec fn split_entries(occs: Seq<OccurrenceView>, lang: Seq<char>) -> Seq<
    CalendarEntryView,
>
    decreases occs.len(),
{
    if occs.len() == 0 {
        Seq::empty()
    } else {
        split_entries(occs.drop_last(), lang) + split_one(occs.last(), lang)
    }
}

/// The ids of the two entries of a long-term occurrence fit the id's type.
pub open spec fn splittable(o: OccurrenceView) -> bool {
    o.is_long_term ==> o.id + END_OFFSET <= u64::MAX
}

/// Every occurrence of `occs` can be split.
pub open spec fn all_splittable(occs: Seq<OccurrenceView>) -> bool {
    forall|i: int| 0 <= i < occs.len() ==> splittable(#[trigger] occs[i])
}

/// Whether the ids of the two entries of `occurrence` fit the id's type.
pub fn can_split(occurrence: &Occurrence) -> (fits: bool)
    ensures
        fits == splittable(occurrence@),
{
    !occurrence.is_long_term || occurrence.id <= u64::MAX - END_OFFSET
}

/// The entries of `schedules` with each long-term occurrence replaced, in its
/// place, by an entry for its first day and one for its last.
pub fn generate_events_split(schedules: Vec<Occurrence>, language: &str) -> (entries: Vec<
    CalendarEntry,
>)
    requires
        all_wf(occurrence_views(schedules@)),
        all_splittable(occurrence_views(schedules@)),
    ensures
        entry_views(entries@) == split_entries(occurrence_views(schedules@), language@),
        all_entries_wf(entry_views(entries@)),
{
    let mut entries: Vec<CalendarEntry> = Vec::new();
    let mut i: usize = 0;
    let ghost occs = occurrence_views(schedules@);
    while i < schedules.len()
        invariant
            i <= schedules.len(),
            occs == occurrence_views(schedules@),
            all_wf(occs),
            all_splittable(occs),
            entry_views(entries@) == split_entries(occs.take(i as int), language@),
            forall|j: int| 0 <= j < entries@.len() ==> (#[trigger] entries@[j])@.wf(),
        decreases schedules.len() - i,
    {
        let schedule = &schedules[i];
        let ghost o = occs[i as int];
        let ghost before = entry_views(entries@);
        assert(o.wf() && splittable(o));
        assert(occs.take(i + 1).drop_last() =~= occs.take(i as int));
        if schedule.is_long_term {
            proof {
                schedule.start.lemma_day_bounds();
                schedule.end.lemma_day_bounds();
            }
            let mut begin_name = String::from_str(EventPhase::Begin.prefix(language));
            begin_name.append(schedule.event.name.as_str());
            let first_day_schedule = schedule.derive(
                BEGIN_OFFSET + schedule.id,
                schedule.start,
                schedule.start.end_of_day(),
                begin_name,
            );
            assert(first_day_schedule@ == begin_of(o, language@));
            entries.push(create_ical_event(&first_day_schedule, language));

            let mut end_name = String::from_str(EventPhase::End.prefix(language));
            end_name.append(schedule.event.name.as_str());
            let last_day_schedule = schedule.derive(
                END_OFFSET + schedule.id,
                schedule.end.start_of_day(),
                schedule.end,
                end_name,
            );
            assert(last_day_schedule@ == end_of(o, language@));
            entries.push(create_ical_event(&last_day_schedule, language));
        } else {
            entries.push(create_ical_event(schedule, language));
        }
        assert(entry_views(entries@) =~= before + split_one(o, language@));
        i += 1;
    }
    assert(occs.take(i as int) =~= occs);
    entries
}

/// The entries of `occs` under the treatment `handling` of long-term
/// occurrences.
pub open spec fn generated_entries(
    occs: Seq<OccurrenceView>,
    lang: Seq<char>,
    handling: LongtermHandling,
) -> Seq<CalendarEntryView> {
    match handling {
        LongtermHandling::Preserve => preserve_entries(occs, lang),
        LongtermHandling::Split => split_entries(occs, lang),
        LongtermHandling::Aggregate => aggregate_entries(occs, lang),
    }
}

/// The calendar entries of `schedules`, in the language and under the
/// treatment of long-term occurrences that `cal_req` asks for.
pub fn generate_events(schedules: Vec<Occurrence>, cal_req: &CalendarRequest) -> (entries: Vec<
    CalendarEntry,
>)
    requires
        all_wf(occurrence_views(schedules@)),
        cal_req.longterm == LongtermHandling::Split ==> all_splittable(
            occurrence_views(schedules@),
        ),
    ensures
        entry_views(entries@) == generated_entries(
            occurrence_views(schedules@),
            cal_req.language@,
            cal_req.longterm,
        ),
        all_entries_wf(entry_views(entries@)),
{
    let language: &str = cal_req.language.as_str();
    match cal_req.longterm {
        LongtermHandling::Preserve => generate_events_preserve(schedules, language),
        LongtermHandling::Split => generate_events_split(schedules, language),
        LongtermHandling::Aggregate => generate_events_aggregate(schedules, language),
    }
}

} // verus!
