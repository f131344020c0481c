//! Long-term occurrences merged into entries that do not overlap.
//!
//! The days on which a long-term occurrence starts, and the days after
//! those on which one ends, are the break days. Between two break days next to
//! each other the same occurrences are active, so one entry stands for them.

use crate::entry::CalendarEntry;
use crate::entry::CalendarEntryView;
use crate::entry::EntryTime;
use crate::entry::all_entries_wf;
use crate::entry::entry_views;
use crate::keys::day_keys;
use crate::model::Occurrence;
use crate::model::OccurrenceView;
use crate::model::all_wf;
use crate::model::occurrence_views;
use crate::order::ascending;
use crate::order::in_order;
use crate::order::insert_sorted;
use crate::order::lemma_in_order_is;
use crate::order::lemma_insert_sorted;
use crate::order::lemma_next_in_order;
use crate::order::lists_in_order;
use crate::render::OptionalDescFields;
use crate::render::create_ical_event;
use crate::render::description_text;
use crate::render::detail_of;
use crate::render::entry_of;
use crate::render::get_description;
use crate::render::get_detail;
use crate::render::get_identity;
use crate::render::get_summary;
use crate::render::identity;
use crate::render::summary_text;
use crate::text::decimal;
use crate::text::decimal_string;
use crate::text::join;
use crate::text::join_strings;
use crate::text::texts;
use crate::time::FIRST_DAY;
use crate::time::LAST_DAY;
use crate::time::iso_date;
use crate::time::iso_date_text;
use std::collections::BTreeMap;
use std::collections::HashSet;
use vstd::prelude::*;
use vstd::string::*;

verus! {

/// The views of a sequence of borrowed occurrences.
pub open spec fn ref_views(occurrences: Seq<&Occurrence>) -> Seq<OccurrenceView> {
    occurrences.map_values(|o: &Occurrence| o@)
}

/// The first and the last day of an occurrence, as dates with a hyphen
/// between them.
pub open spec fn span_text(o: OccurrenceView) -> Seq<char> {
    iso_date_text(o.start_day()) + " - "@ + iso_date_text(o.end_day())
}

/// What a summing-up entry says of one of its occurrences: its summary, its
/// span, and its description without the event's free text.
pub open spec fn longterm_part(o: OccurrenceView, lang: Seq<char>) -> Seq<char> {
    summary_text(o, lang) + "\n"@ + span_text(o) + "\n"@ + description_text(o, false)
}

/// The entry for the days from `start` up to, not including, `end`, on which
/// exactly the occurrences `active` are on. For one occurrence it is that
/// occurrence's entry with these days as its span and the occurrence's own
/// span at the end of the description. For several it sums them up: it is
/// named after `start`, counts them in its summary and lists them in its
/// description.
pub open spec fn aggregate_entry(
    start: int,
    end: int,
    active: Seq<OccurrenceView>,
    lang: Seq<char>,
) -> CalendarEntryView {
    if active.len() == 1 {
        CalendarEntryView {
            uid: identity(active[0]),
            created: active[0].uploaded_on,
            start: EntryTime::Date(start as i32),
            end: EntryTime::Date(end as i32),
            summary: summary_text(active[0], lang),
            description: description_text(active[0], true) + "\n\n"@ + span_text(active[0]),
            detail: Some(detail_of(active[0])),
        }
    } else {
        CalendarEntryView {
            uid: "LongTermSchedule"@ + iso_date_text(start) + "@goout.net"@,
            created: active[0].uploaded_on,
            start: EntryTime::Date(start as i32),
            end: EntryTime::Date(end as i32),
            summary: decimal(active.len()) + " long-term events"@,
            description: join(
                active.map_values(|o: OccurrenceView| longterm_part(o, lang)),
                "\n\n"@,
            ),
            detail: None,
        }
    }
}

/// The first and the last day of `schedule`, as dates with a hyphen between.
fn get_span(schedule: &Occurrence) -> (span: String)
    requires
        schedule.wf(),
    ensures
        span@ == span_text(schedule@),
{
    proof {
        schedule.start.lemma_day_bounds();
        schedule.end.lemma_day_bounds();
    }
    let mut span = iso_date(schedule.start.local_day());
    span.append(" - ");
    span.append(iso_date(schedule.end.local_day()).as_str());
    span
}

/// What a summing-up entry says of `schedule`.
pub fn get_longterm_part_description(schedule: &Occurrence, lang: &str) -> (part: String)
    requires
        schedule.wf(),
    ensures
        part@ == longterm_part(schedule@, lang@),
{
    let mut part = get_summary(schedule, lang);
    part.append("\n");
    part.append(get_span(schedule).as_str());
    part.append("\n");
    part.append(get_description(schedule, OptionalDescFields::empty()).as_str());
    part
}

/// The entry for the days from `start` up to, not including, `end`, on which
/// exactly `schedules` are on.
pub fn render_aggregate_event(
    start: i32,
    end: i32,
    schedules: &Vec<&Occurrence>,
    lang: &str,
) -> (entry: CalendarEntry)
    requires
        schedules@.len() > 0,
        all_wf(ref_views(schedules@)),
        FIRST_DAY <= start < end <= LAST_DAY + 1,
    ensures
        entry@ == aggregate_entry(start as int, end as int, ref_views(schedules@), lang@),
        entry@.wf(),
{
    let ghost active = ref_views(schedules@);
    assert(active[0].wf());
    if schedules.len() == 1 {
        let schedule = schedules[0];
        let mut description = get_description(schedule, OptionalDescFields::default());
        description.append("\n\n");
        description.append(get_span(schedule).as_str());
        CalendarEntry {
            uid: get_identity(schedule),
            created: schedule.uploaded_on,
            start: EntryTime::Date(start),
            end: EntryTime::Date(end),
            summary: get_summary(schedule, lang),
            description,
            detail: Some(get_detail(schedule)),
        }
    } else {
        let mut uid = String::from_str("LongTermSchedule");
        uid.append(iso_date(start).as_str());
        uid.append("@goout.net");
        let mut summary = decimal_string(schedules.len() as u64);
        summary.append(" long-term events");
        let mut parts: Vec<String> = Vec::new();
        let mut i: usize = 0;
        while i < schedules.len()
            invariant
                i <= schedules.len(),
                active == ref_views(schedules@),
                all_wf(active),
                parts@.len() == i,
                forall|j: int| 0 <= j < i ==> (#[trigger] parts@[j])@ == longterm_part(active[j], lang@),
            decreases schedules.len() - i,
        {
            assert(active[i as int].wf());
            parts.push(get_longterm_part_description(schedules[i], lang));
            i += 1;
        }
        assert(texts(parts@) =~= active.map_values(|o: OccurrenceView| longterm_part(o, lang@)));
        CalendarEntry {
            uid,
            created: schedules[0].uploaded_on,
            start: EntryTime::Date(start),
            end: EntryTime::Date(end),
            summary,
            description: join_strings(&parts, "\n\n"),
            detail: None,
        }
    }
}

/// What changes on a break day.
pub struct BreakDay<'a> {
    /// The long-term occurrences that start on the day.
    pub starts: Vec<&'a Occurrence>,
    /// The ids of the long-term occurrences whose last day was the day before.
    pub end_ids: HashSet<u64>,
}

/// What a `BreakDay` holds.
pub struct BreakDayView {
    pub starts: Seq<OccurrenceView>,
    pub end_ids: Set<u64>,
}

impl<'a> View for BreakDay<'a> {
    type V = BreakDayView;

    open spec fn view(&self) -> BreakDayView {
        BreakDayView { starts: ref_views(self.starts@), end_ids: self.end_ids@ }
    }
}

/// The break days of a map from day numbers, each with what it holds.
pub open spec fn day_map_view<'a>(breakdays: Map<i32, BreakDay<'a>>) -> Map<int, BreakDayView> {
    Map::new(
        |day: int| i32::MIN <= day <= i32::MAX && breakdays.contains_key(day as i32),
        |day: int| breakdays[day as i32]@,
    )
}

/// Those of `active` whose id is not in `ended`, in their order.
pub open spec fn still_active(active: Seq<OccurrenceView>, ended: Set<u64>) -> Seq<OccurrenceView>
    decreases active.len(),
{
    if active.len() == 0 {
        Seq::empty()
    } else {
        still_active(active.drop_last(), ended) + (if ended.contains(active.last().id) {
            Seq::empty()
        } else {
            seq![active.last()]
        })
    }
}

/// The occurrences that are active when the first `n` of `days` have been
/// visited in turn: on each day those whose id ends there leave, then those
/// that start there come in behind the others.
pub open spec fn sweep_active(breakdays: Map<int, BreakDayView>, days: Seq<int>, n: int) -> Seq<
    OccurrenceView,
>
    decreases n,
{
    if n <= 0 || n > days.len() {
        Seq::empty()
    } else {
        still_active(sweep_active(breakdays, days, n - 1), breakdays[days[n - 1]].end_ids)
            + breakdays[days[n - 1]].starts
    }
}

/// The entries made while the first `n` of `days` are visited in turn: on
/// reaching a day, one for the days since the day before it in `days`, if any
/// occurrence was active on them.
pub open spec fn swept_entries(
    breakdays: Map<int, BreakDayView>,
    days: Seq<int>,
    n: int,
    lang: Seq<char>,
) -> Seq<CalendarEntryView>
    decreases n,
{
    if n <= 0 || n > days.len() {
        Seq::empty()
    } else {
        swept_entries(breakdays, days, n - 1, lang) + (if sweep_active(
            breakdays,
            days,
            n - 1,
        ).len() > 0 {
            seq![
                aggregate_entry(
                    days[n - 2],
                    days[n - 1],
                    sweep_active(breakdays, days, n - 1),
                    lang,
                ),
            ]
        } else {
            Seq::empty()
        })
    }
}

/// Every day of `breakdays` can be written as a date, and every occurrence
/// that starts on one is well formed.
pub open spec fn sound_days<'a>(breakdays: Map<i32, BreakDay<'a>>) -> bool {
    forall|day: i32| #[trigger]
        breakdays.contains_key(day) ==> FIRST_DAY <= day <= LAST_DAY + 1 && all_wf(
            breakdays[day]@.starts,
        )
}

/// Those of `active` whose id is not in `ended`, in their order.
fn retain_active<'a>(active: &Vec<&'a Occurrence>, ended: &HashSet<u64>) -> (kept: Vec<
    &'a Occurrence,
>)
    ensures
        ref_views(kept@) == still_active(ref_views(active@), ended@),
{
    let mut kept: Vec<&'a Occurrence> = Vec::new();
    let mut i: usize = 0;
    while i < active.len()
        invariant
            i <= active.len(),
            ref_views(kept@) == still_active(ref_views(active@.take(i as int)), ended@),
        decreases active.len() - i,
    {
        let ghost before = ref_views(kept@);
        assert(ref_views(active@.take(i + 1)).drop_last() =~= ref_views(active@.take(i as int)));
        assert(ref_views(active@.take(i + 1)).last() == active@[i as int]@);
        if !ended.contains(&active[i].id) {
            kept.push(active[i]);
            assert(ref_views(kept@) =~= before + seq![active@[i as int]@]);
        }
        i += 1;
    }
    assert(active@.take(i as int) =~= active@);
    kept
}

/// `active` with `starts` behind it.
fn extend_active<'a>(active: &mut Vec<&'a Occurrence>, starts: &Vec<&'a Occurrence>)
    ensures
        ref_views(final(active)@) == ref_views(old(active)@) + ref_views(starts@),
{
    let ghost before = ref_views(active@);
    let mut i: usize = 0;
    while i < starts.len()
        invariant
            i <= starts.len(),
            ref_views(active@) == before + ref_views(starts@.take(i as int)),
        decreases starts.len() - i,
    {
        let ghost grown = ref_views(active@);
        active.push(starts[i]);
        assert(ref_views(active@) =~= grown.push(starts@[i as int]@));
        assert(ref_views(starts@.take(i + 1)) =~= ref_views(starts@.take(i as int)).push(
            starts@[i as int]@,
        ));
        i += 1;
    }
    assert(starts@.take(i as int) =~= starts@);
}

/// The members of `s` that remain in `still_active(s, ended)` are members of
/// `s` whose id is not in `ended`.
pub proof fn lemma_still_active_members(active: Seq<OccurrenceView>, ended: Set<u64>)
    ensures
        forall|k: int|
            0 <= k < still_active(active, ended).len() ==> active.contains(
                #[trigger] still_active(active, ended)[k],
            ) && !ended.contains(still_active(active, ended)[k].id),
        forall|j: int|
            0 <= j < active.len() && !ended.contains(active[j].id) ==> still_active(
                active,
                ended,
            ).contains(#[trigger] active[j]),
    decreases active.len(),
{
    if active.len() > 0 {
        let rest = active.drop_last();
        lemma_still_active_members(rest, ended);
        let r = still_active(active, ended);
        let r0 = still_active(rest, ended);
        assert forall|k: int| 0 <= k < r.len() implies active.contains(#[trigger] r[k])
            && !ended.contains(r[k].id) by {
            if k < r0.len() {
                assert(r[k] == r0[k]);
                assert(rest.contains(r0[k]));
                let j = choose|j: int| 0 <= j < rest.len() && rest[j] == r0[k];
                assert(active[j] == r0[k]);
            } else {
                assert(r[k] == active.last());
                assert(active[active.len() - 1] == r[k]);
            }
        }
        assert forall|j: int| 0 <= j < active.len() && !ended.contains(active[j].id) implies r.contains(
            #[trigger] active[j],
        ) by {
            if j < rest.len() {
                assert(rest[j] == active[j]);
                assert(r0.contains(rest[j]));
                let k = choose|k: int| 0 <= k < r0.len() && r0[k] == rest[j];
                assert(r[k] == active[j]);
            } else {
                assert(r[r.len() - 1] == active[j]);
            }
        }
    }
}

/// Makes the entries of the spans between the break days of `breakdays`,
/// behind those that `events` holds already. When the last day has been
/// visited no occurrence may be active any more.
pub fn render_events_from_breakdays<'a>(
    events: &mut Vec<CalendarEntry>,
    breakdays: &BTreeMap<i32, BreakDay<'a>>,
    lang: &str,
)
    requires
        all_entries_wf(entry_views(old(events)@)),
        sound_days(breakdays@),
        sweep_active(
            day_map_view(breakdays@),
            in_order(day_map_view(breakdays@).dom()),
            in_order(day_map_view(breakdays@).dom()).len() as int,
        ).len() == 0,
    ensures
        all_entries_wf(entry_views(final(events)@)),
        entry_views(final(events)@) == entry_views(old(events)@) + swept_entries(
            day_map_view(breakdays@),
            in_order(day_map_view(breakdays@).dom()),
            in_order(day_map_view(breakdays@).dom()).len() as int,
            lang@,
        ),
{
    let ghost before = entry_views(events@);
    let ghost days_map = day_map_view(breakdays@);
    let days = day_keys(breakdays);
    let ghost day_list = days@.map_values(|d: i32| d as int);
    proof {
        assert forall|x: int| day_list.contains(x) <==> days_map.dom().contains(x) by {
            if day_list.contains(x) {
                let i = choose|i: int| 0 <= i < day_list.len() && day_list[i] == x;
                assert(days@.contains(days@[i]));
            }
            if days_map.dom().contains(x) {
                assert(days@.contains(x as i32));
                let i = choose|i: int| 0 <= i < days@.len() && days@[i] == x as i32;
                assert(day_list[i] == x);
            }
        }
        assert(lists_in_order(day_list, days_map.dom()));
        lemma_in_order_is(day_list, days_map.dom());
    }
    assert forall|k: int| 0 <= k < events@.len() implies (#[trigger] events@[k])@.wf() by {
        assert(entry_views(events@)[k].wf());
    }
    let mut date_cursor: i32 = FIRST_DAY;
    let mut active_schedules: Vec<&'a Occurrence> = Vec::new();
    let mut j: usize = 0;
    assert(entry_views(events@) =~= before + swept_entries(days_map, day_list, 0, lang@));
    assert(ref_views(active_schedules@) =~= sweep_active(days_map, day_list, 0));
    while j < days.len()
        invariant
            j <= days.len(),
            sound_days(breakdays@),
            days_map == day_map_view(breakdays@),
            day_list == days@.map_values(|d: i32| d as int),
            forall|k: i32| days@.contains(k) <==> breakdays@.contains_key(k),
            forall|a: int, b: int| 0 <= a < b < days@.len() ==> days@[a] < days@[b],
            forall|k: int| 0 <= k < events@.len() ==> (#[trigger] events@[k])@.wf(),
            j > 0 ==> date_cursor == days@[j - 1],
            all_wf(ref_views(active_schedules@)),
            ref_views(active_schedules@) == sweep_active(days_map, day_list, j as int),
            entry_views(events@) == before + swept_entries(days_map, day_list, j as int, lang@),
        decreases days.len() - j,
    {
        let date = days[j];
        assert(days@.contains(days@[j as int]));
        assert(breakdays@.contains_key(date));
        let ghost emitted = entry_views(events@);
        let ghost active = ref_views(active_schedules@);
        let found = breakdays.get(&date);
        match found {
            Some(breakday) => {
                assert(*breakday == breakdays@[date]);
                assert(days_map[day_list[j as int]] == breakday@);
                if active_schedules.len() > 0 {
                    assert(j > 0);
                    assert(days@.contains(days@[j - 1]));
                    events.push(render_aggregate_event(date_cursor, date, &active_schedules, lang));
                    assert(entry_views(events@) =~= emitted + seq![
                        aggregate_entry(date_cursor as int, date as int, active, lang@),
                    ]);
                } else {
                    assert(entry_views(events@) =~= emitted + Seq::<CalendarEntryView>::empty());
                }
                let mut kept = retain_active(&active_schedules, &breakday.end_ids);
                extend_active(&mut kept, &breakday.starts);
                proof {
                    lemma_still_active_members(active, breakday.end_ids@);
                    assert forall|k: int| 0 <= k < ref_views(kept@).len() implies (
                    #[trigger] ref_views(kept@)[k]).wf() by {
                        let kept_before = still_active(active, breakday.end_ids@);
                        if k < kept_before.len() {
                            assert(active.contains(kept_before[k]));
                        } else {
                            assert(ref_views(kept@)[k] == breakday@.starts[k - kept_before.len()]);
                        }
                    }
                }
                active_schedules = kept;
            },
            None => {
                assert(false);
            },
        }
        date_cursor = date;
        j += 1;
    }
}

/// Whether `day` is a break day of `occs`: a long-term occurrence starts on
/// it, or ended the day before.
pub open spec fn is_break_day(occs: Seq<OccurrenceView>, day: int) -> bool {
    exists|i: int|
        0 <= i < occs.len() && (#[trigger] occs[i]).is_long_term && (occs[i].start_day() == day
            || occs[i].end_day() + 1 == day)
}

/// The long-term occurrences of `occs` that start on `day`, in their order.
pub open spec fn starts_on(occs: Seq<OccurrenceView>, day: int) -> Seq<OccurrenceView>
    decreases occs.len(),
{
    if occs.len() == 0 {
        Seq::empty()
    } else {
        starts_on(occs.drop_last(), day) + (if occs.last().is_long_term && occs.last().start_day()
            == day {
            seq![occs.last()]
        } else {
            Seq::empty()
        })
    }
}

/// The ids of the long-term occurrences of `occs` whose last day is the day
/// before `day`.
pub open spec fn end_ids(occs: Seq<OccurrenceView>, day: int) -> Set<u64> {
    Set::new(
        |id: u64|
            exists|i: int|
                0 <= i < occs.len() && (#[trigger] occs[i]).is_long_term && occs[i].id == id
                    && occs[i].end_day() + 1 == day,
    )
}

/// The break days of `occs`, each with what changes on it.
pub open spec fn break_day_map(occs: Seq<OccurrenceView>) -> Map<int, BreakDayView> {
    Map::new(
        |day: int| is_break_day(occs, day),
        |day: int| BreakDayView { starts: starts_on(occs, day), end_ids: end_ids(occs, day) },
    )
}

/// The break days of `occs`, ascending.
pub open spec fn break_days(occs: Seq<OccurrenceView>) -> Seq<int> {
    in_order(break_day_map(occs).dom())
}

/// The entries of the occurrences of `occs` that are not long-term, in their
/// order.
pub open spec fn short_entries(occs: Seq<OccurrenceView>, lang: Seq<char>) -> Seq<
    CalendarEntryView,
>
    decreases occs.len(),
{
    if occs.len() == 0 {
        Seq::empty()
    } else {
        short_entries(occs.drop_last(), lang) + (if occs.last().is_long_term {
            Seq::empty()
        } else {
            seq![entry_of(occs.last(), lang)]
        })
    }
}

/// The entries of the long-term occurrences of `occs` when they are
/// aggregated: those of a sweep over the break days in ascending order.
pub open spec fn longterm_entries(occs: Seq<OccurrenceView>, lang: Seq<char>) -> Seq<
    CalendarEntryView,
> {
    swept_entries(break_day_map(occs), break_days(occs), break_days(occs).len() as int, lang)
}

/// The entries of `occs` when long-term occurrences are aggregated: first
/// the entries of the others, then those of the long-term ones.
pub open spec fn aggregate_entries(occs: Seq<OccurrenceView>, lang: Seq<char>) -> Seq<
    CalendarEntryView,
> {
    short_entries(occs, lang) + longterm_entries(occs, lang)
}

/// What one more occurrence adds to the break days and to what they hold.
pub proof fn lemma_push_occurrence(occs: Seq<OccurrenceView>, o: OccurrenceView, day: int)
    ensures
        is_break_day(occs.push(o), day) <==> is_break_day(occs, day) || (o.is_long_term && (
        o.start_day() == day || o.end_day() + 1 == day)),
        starts_on(occs.push(o), day) == starts_on(occs, day) + (if o.is_long_term && o.start_day()
            == day {
            seq![o]
        } else {
            Seq::empty()
        }),
        end_ids(occs.push(o), day) == if o.is_long_term && o.end_day() + 1 == day {
            end_ids(occs, day).insert(o.id)
        } else {
            end_ids(occs, day)
        },
{
    let more = occs.push(o);
    assert(more.drop_last() =~= occs);
    assert(more.last() == o);
    if is_break_day(more, day) {
        let i = choose|i: int|
            0 <= i < more.len() && (#[trigger] more[i]).is_long_term && (more[i].start_day() == day
                || more[i].end_day() + 1 == day);
        if i < occs.len() {
            assert(occs[i] == more[i]);
        }
    }
    if is_break_day(occs, day) {
        let i = choose|i: int|
            0 <= i < occs.len() && (#[trigger] occs[i]).is_long_term && (occs[i].start_day() == day
                || occs[i].end_day() + 1 == day);
        assert(more[i] == occs[i]);
    }
    if o.is_long_term && (o.start_day() == day || o.end_day() + 1 == day) {
        assert(more[occs.len() as int] == o);
    }
    let grown = if o.is_long_term && o.end_day() + 1 == day {
        end_ids(occs, day).insert(o.id)
    } else {
        end_ids(occs, day)
    };
    assert forall|id: u64| end_ids(more, day).contains(id) <==> grown.contains(id) by {
        if end_ids(more, day).contains(id) {
            let i = choose|i: int|
                0 <= i < more.len() && (#[trigger] more[i]).is_long_term && more[i].id == id
                    && more[i].end_day() + 1 == day;
            if i < occs.len() {
                assert(occs[i] == more[i]);
            }
        }
        if end_ids(occs, day).contains(id) {
            let i = choose|i: int|
                0 <= i < occs.len() && (#[trigger] occs[i]).is_long_term && occs[i].id == id
                    && occs[i].end_day() + 1 == day;
            assert(more[i] == occs[i]);
        }
        if o.is_long_term && o.end_day() + 1 == day && id == o.id {
            assert(more[occs.len() as int] == o);
        }
    }
    assert(end_ids(more, day) =~= grown);
}

/// The break days of well-formed occurrences can be listed in ascending order.
pub proof fn lemma_break_days(occs: Seq<OccurrenceView>)
    ensures
        lists_in_order(break_days(occs), break_day_map(occs).dom()),
    decreases occs.len(),
{
    let days = break_day_map(occs).dom();
    if occs.len() == 0 {
        let none = Seq::<int>::empty();
        assert forall|x: int| none.contains(x) <==> days.contains(x) by {
            if days.contains(x) {
                assert(is_break_day(occs, x));
            }
        }
        assert(lists_in_order(none, days));
    } else {
        let rest = occs.drop_last();
        let o = occs.last();
        assert(occs =~= rest.push(o));
        lemma_break_days(rest);
        let rest_days = break_day_map(rest).dom();
        let listed = break_days(rest);
        if o.is_long_term {
            lemma_insert_sorted(listed, rest_days, o.start_day());
            let with_start = insert_sorted(listed, o.start_day());
            lemma_insert_sorted(with_start, rest_days.insert(o.start_day()), o.end_day() + 1);
            let with_both = insert_sorted(with_start, o.end_day() + 1);
            assert forall|x: int| days.contains(x) <==> rest_days.insert(o.start_day()).insert(
                o.end_day() + 1,
            ).contains(x) by {
                lemma_push_occurrence(rest, o, x);
            }
            assert(days =~= rest_days.insert(o.start_day()).insert(o.end_day() + 1));
            assert(lists_in_order(with_both, days));
        } else {
            assert forall|x: int| days.contains(x) <==> rest_days.contains(x) by {
                lemma_push_occurrence(rest, o, x);
            }
            assert(days =~= rest_days);
            assert(lists_in_order(listed, days));
        }
    }
}

/// The occurrences that start on a day are long-term occurrences of `occs`
/// with that day as the day of their start.
pub proof fn lemma_starts_on_members(occs: Seq<OccurrenceView>, day: int)
    ensures
        forall|k: int|
            0 <= k < starts_on(occs, day).len() ==> occs.contains(#[trigger] starts_on(occs, day)[k])
                && starts_on(occs, day)[k].is_long_term && starts_on(occs, day)[k].start_day()
                == day,
        forall|i: int|
            0 <= i < occs.len() && occs[i].is_long_term && occs[i].start_day() == day
                ==> starts_on(occs, day).contains(#[trigger] occs[i]),
    decreases occs.len(),
{
    if occs.len() > 0 {
        let rest = occs.drop_last();
        lemma_starts_on_members(rest, day);
        let r = starts_on(occs, day);
        let r0 = starts_on(rest, day);
        assert forall|k: int| 0 <= k < r.len() implies occs.contains(#[trigger] r[k])
            && r[k].is_long_term && r[k].start_day() == day by {
            if k < r0.len() {
                assert(r[k] == r0[k]);
                assert(rest.contains(r0[k]));
                let j = choose|j: int| 0 <= j < rest.len() && rest[j] == r0[k];
                assert(occs[j] == r0[k]);
            } else {
                assert(occs[occs.len() - 1] == r[k]);
            }
        }
        assert forall|i: int|
            0 <= i < occs.len() && occs[i].is_long_term && occs[i].start_day() == day implies r.contains(
            #[trigger] occs[i],
        ) by {
            if i < rest.len() {
                assert(rest[i] == occs[i]);
                assert(r0.contains(rest[i]));
                let k = choose|k: int| 0 <= k < r0.len() && r0[k] == rest[i];
                assert(r[k] == occs[i]);
            } else {
                assert(r[r.len() - 1] == occs[i]);
            }
        }
    }
}

/// An occurrence that is active when `n` break days have been visited is a
/// long-term occurrence of `occs` that has started by the last of them and
/// whose last day is not before it.
pub proof fn lemma_active_in_span(occs: Seq<OccurrenceView>, n: int)
    requires
        all_wf(occs),
        0 <= n <= break_days(occs).len(),
    ensures
        forall|k: int|
            #![trigger sweep_active(break_day_map(occs), break_days(occs), n)[k]]
            0 <= k < sweep_active(break_day_map(occs), break_days(occs), n).len() ==> {
                let o = sweep_active(break_day_map(occs), break_days(occs), n)[k];
                &&& n > 0
                &&& occs.contains(o)
                &&& o.is_long_term
                &&& o.start_day() <= break_days(occs)[n - 1] <= o.end_day()
            },
    decreases n,
{
    let m = break_day_map(occs);
    let days = break_days(occs);
    lemma_break_days(occs);
    if n > 0 {
        lemma_active_in_span(occs, n - 1);
        let day = days[n - 1];
        assert(days.contains(day));
        assert(m.dom().contains(day));
        let before = sweep_active(m, days, n - 1);
        let kept = still_active(before, m[day].end_ids);
        let now = sweep_active(m, days, n);
        lemma_still_active_members(before, end_ids(occs, day));
        lemma_starts_on_members(occs, day);
        assert forall|k: int| 0 <= k < now.len() implies {
            let o = #[trigger] now[k];
            &&& occs.contains(o)
            &&& o.is_long_term
            &&& o.start_day() <= day <= o.end_day()
        } by {
            let o = now[k];
            if k < kept.len() {
                assert(o == kept[k]);
                assert(before.contains(o));
                let b = choose|b: int| 0 <= b < before.len() && before[b] == o;
                assert(before[b] == o);
                let i = choose|i: int| 0 <= i < occs.len() && occs[i] == o;
                assert(occs[i].wf());
                assert(is_break_day(occs, o.end_day() + 1));
                assert(m.dom().contains(o.end_day() + 1));
                assert(days.contains(o.end_day() + 1));
                lemma_next_in_order(days, n - 2, o.end_day() + 1);
                if o.end_day() + 1 == day {
                    assert(end_ids(occs, day).contains(o.id));
                }
            } else {
                assert(o == starts_on(occs, day)[k - kept.len()]);
                let i = choose|i: int| 0 <= i < occs.len() && occs[i] == o;
                assert(occs[i].wf());
            }
        }
    }
}

/// When every break day has been visited, no occurrence is active any more.
pub proof fn lemma_sweep_exhausts(occs: Seq<OccurrenceView>)
    requires
        all_wf(occs),
    ensures
        sweep_active(break_day_map(occs), break_days(occs), break_days(occs).len() as int).len()
            == 0,
{
    let m = break_day_map(occs);
    let days = break_days(occs);
    let n = days.len() as int;
    let last = sweep_active(m, days, n);
    lemma_break_days(occs);
    lemma_active_in_span(occs, n);
    if last.len() > 0 {
        let o = last[0];
        let i = choose|i: int| 0 <= i < occs.len() && occs[i] == o;
        assert(occs[i].is_long_term);
        assert(is_break_day(occs, o.end_day() + 1));
        assert(m.dom().contains(o.end_day() + 1));
        assert(days.contains(o.end_day() + 1));
        lemma_next_in_order(days, n - 1, o.end_day() + 1);
    }
}

/// On a day that is no break day nothing starts and no id ends.
pub proof fn lemma_no_break_day(occs: Seq<OccurrenceView>, day: int)
    ensures
        !is_break_day(occs, day) ==> starts_on(occs, day) == Seq::<OccurrenceView>::empty()
            && end_ids(occs, day) == Set::<u64>::empty(),
{
    if !is_break_day(occs, day) {
        lemma_starts_on_members(occs, day);
        if starts_on(occs, day).len() > 0 {
            let x = starts_on(occs, day)[0];
            let k = choose|k: int| 0 <= k < occs.len() && occs[k] == x;
            assert(occs[k].is_long_term);
        }
        assert(starts_on(occs, day) =~= Seq::empty());
        assert forall|id: u64| !end_ids(occs, day).contains(id) by {
            if end_ids(occs, day).contains(id) {
                let k = choose|k: int|
                    0 <= k < occs.len() && (#[trigger] occs[k]).is_long_term && occs[k].id == id
                        && occs[k].end_day() + 1 == day;
                assert(is_break_day(occs, day));
            }
        }
        assert(end_ids(occs, day) =~= Set::empty());
    }
}

/// The break day `day` of `breakdays`, taken out of the map; if there is none
/// yet, one on which nothing changes.
fn take_breakday<'a>(breakdays: &mut BTreeMap<i32, BreakDay<'a>>, day: i32) -> (breakday: BreakDay<
    'a,
>)
    ensures
        final(breakdays)@ == old(breakdays)@.remove(day),
        breakday@ == if old(breakdays)@.contains_key(day) {
            old(breakdays)@[day]@
        } else {
            BreakDayView { starts: Seq::empty(), end_ids: Set::empty() }
        },
{
    match breakdays.remove(&day) {
        Some(breakday) => breakday,
        None => {
            let breakday = BreakDay { starts: Vec::new(), end_ids: HashSet::new() };
            assert(ref_views(breakday.starts@) =~= Seq::empty());
            breakday
        },
    }
}

/// `breakdays` holds the break days of `occs`, each with what changes on it.
pub open spec fn holds_break_days<'a>(
    breakdays: Map<i32, BreakDay<'a>>,
    occs: Seq<OccurrenceView>,
) -> bool {
    forall|day: i32|
        #![trigger breakdays.contains_key(day)]
        #![trigger breakdays[day]]
        {
            &&& breakdays.contains_key(day) <==> is_break_day(occs, day as int)
            &&& breakdays.contains_key(day) ==> breakdays[day]@.starts == starts_on(
                occs,
                day as int,
            ) && breakdays[day]@.end_ids == end_ids(occs, day as int)
        }
}

/// The entries of `schedules` with the long-term occurrences merged into
/// entries that do not overlap: first the entries of the other occurrences,
/// then those of the long-term ones in the order of their days.
pub fn generate_events_aggregate(schedules: Vec<Occurrence>, lang: &str) -> (entries: Vec<
    CalendarEntry,
>)
    requires
        all_wf(occurrence_views(schedules@)),
    ensures
        entry_views(entries@) == aggregate_entries(occurrence_views(schedules@), lang@),
        all_entries_wf(entry_views(entries@)),
{
    let mut events: Vec<CalendarEntry> = Vec::new();
    let mut breakdays: BTreeMap<i32, BreakDay> = BTreeMap::new();
    let ghost occs = occurrence_views(schedules@);
    let mut i: usize = 0;
    assert(entry_views(events@) =~= short_entries(occs.take(0), lang@));
    while i < schedules.len()
        invariant
            i <= schedules.len(),
            occs == occurrence_views(schedules@),
            all_wf(occs),
            entry_views(events@) == short_entries(occs.take(i as int), lang@),
            forall|k: int| 0 <= k < events@.len() ==> (#[trigger] events@[k])@.wf(),
            holds_break_days(breakdays@, occs.take(i as int)),
        decreases schedules.len() - i,
    {
        let schedule = &schedules[i];
        let ghost o = occs[i as int];
        let ghost done = occs.take(i as int);
        let ghost emitted = entry_views(events@);
        let ghost days_before = breakdays@;
        assert(o.wf());
        assert(occs.take(i + 1) =~= done.push(o));
        assert(done.push(o).drop_last() =~= done);
        if !schedule.is_long_term {
            events.push(create_ical_event(schedule, lang));
            assert(entry_views(events@) =~= emitted + seq![entry_of(o, lang@)]);
            proof {
                assert forall|day: i32|
                    #![trigger breakdays@.contains_key(day)]
                    #![trigger breakdays@[day]]
                    {
                        &&& breakdays@.contains_key(day) <==> is_break_day(
                            done.push(o),
                            day as int,
                        )
                        &&& breakdays@.contains_key(day) ==> breakdays@[day]@.starts == starts_on(
                            done.push(o),
                            day as int,
                        ) && breakdays@[day]@.end_ids == end_ids(done.push(o), day as int)
                    } by {
                    lemma_push_occurrence(done, o, day as int);
                    assert(starts_on(done, day as int) + Seq::<OccurrenceView>::empty()
                        =~= starts_on(done, day as int));
                }
            }
        } else {
            proof {
                schedule.start.lemma_day_bounds();
                schedule.end.lemma_day_bounds();
            }
            assert(entry_views(events@) =~= emitted + Seq::<CalendarEntryView>::empty());
            let start_day = schedule.start.local_day();
            let mut start_breakday = take_breakday(&mut breakdays, start_day);
            let ghost start_before = start_breakday@;
            start_breakday.starts.push(schedule);
            assert(start_breakday@.starts =~= start_before.starts + seq![o]);
            assert(start_breakday@.end_ids == start_before.end_ids);
            breakdays.insert(start_day, start_breakday);
            let ghost days_between = breakdays@;

            let end_day = schedule.end.local_day() + 1;
            let mut end_breakday = take_breakday(&mut breakdays, end_day);
            let ghost end_before = end_breakday@;
            end_breakday.end_ids.insert(schedule.id);
            assert(end_breakday@.starts == end_before.starts);
            assert(end_breakday@.end_ids == end_before.end_ids.insert(o.id));
            breakdays.insert(end_day, end_breakday);
            proof {
                assert(start_day != end_day);
                lemma_no_break_day(done, start_day as int);
                lemma_no_break_day(done, end_day as int);
                assert(start_before.starts == starts_on(done, start_day as int));
                assert(start_before.end_ids == end_ids(done, start_day as int));
                assert(end_before.starts == starts_on(done, end_day as int));
                assert(end_before.end_ids == end_ids(done, end_day as int));
                assert forall|day: i32|
                    #![trigger breakdays@.contains_key(day)]
                    #![trigger breakdays@[day]]
                    {
                        &&& breakdays@.contains_key(day) <==> is_break_day(
                            done.push(o),
                            day as int,
                        )
                        &&& breakdays@.contains_key(day) ==> breakdays@[day]@.starts == starts_on(
                            done.push(o),
                            day as int,
                        ) && breakdays@[day]@.end_ids == end_ids(done.push(o), day as int)
                    } by {
                    lemma_push_occurrence(done, o, day as int);
                    assert(days_before.contains_key(day) <==> is_break_day(done, day as int));
                    if day == end_day {
                        assert(starts_on(done, day as int) + Seq::<OccurrenceView>::empty()
                            =~= starts_on(done, day as int));
                    } else if day == start_day {
                    } else {
                        assert(breakdays@.contains_key(day) <==> days_before.contains_key(day));
                        if days_before.contains_key(day) {
                            assert(breakdays@[day] == days_before[day]);
                        }
                        assert(starts_on(done, day as int) + Seq::<OccurrenceView>::empty()
                            =~= starts_on(done, day as int));
                    }
                }
            }
        }
        i += 1;
    }
    assert(occs.take(i as int) =~= occs);
    proof {
        lemma_break_days(occs);
        lemma_sweep_exhausts(occs);
        assert forall|day: int| is_break_day(occs, day) implies FIRST_DAY <= day <= LAST_DAY
            + 1 by {
            let k = choose|k: int|
                0 <= k < occs.len() && (#[trigger] occs[k]).is_long_term && (occs[k].start_day()
                    == day || occs[k].end_day() + 1 == day);
            assert(occs[k].wf());
            occs[k].start.lemma_day_bounds();
            occs[k].end.lemma_day_bounds();
        }
        assert(day_map_view(breakdays@) =~= break_day_map(occs));
        assert forall|day: i32| #[trigger] breakdays@.contains_key(day) implies FIRST_DAY <= day
            <= LAST_DAY + 1 && all_wf(breakdays@[day]@.starts) by {
            lemma_starts_on_members(occs, day as int);
            assert forall|k: int| 0 <= k < starts_on(occs, day as int).len() implies (
            #[trigger] starts_on(occs, day as int)[k]).wf() by {
                let x = starts_on(occs, day as int)[k];
                let j = choose|j: int| 0 <= j < occs.len() && occs[j] == x;
                assert(occs[j].wf());
            }
        }
    }
    render_events_from_breakdays(&mut events, &breakdays, lang);
    events
}

} // verus!
