//! What holds of the three treatments of long-term occurrences, whatever the
//! occurrences are.

use crate::aggregate::aggregate_entries;
use crate::aggregate::aggregate_entry;
use crate::aggregate::break_day_map;
use crate::aggregate::break_days;
use crate::aggregate::end_ids;
use crate::aggregate::is_break_day;
use crate::aggregate::lemma_active_in_span;
use crate::aggregate::lemma_break_days;
use crate::aggregate::lemma_starts_on_members;
use crate::aggregate::lemma_still_active_members;
use crate::aggregate::longterm_entries;
use crate::aggregate::short_entries;
use crate::aggregate::starts_on;
use crate::aggregate::still_active;
use crate::aggregate::sweep_active;
use crate::aggregate::swept_entries;
use crate::calendar::LongtermHandling;
use crate::entry::CalendarEntryView;
use crate::entry::EntryTime;
use crate::model::OccurrenceView;
use crate::model::all_wf;
use crate::order::ascending;
use crate::order::lemma_in_order_is;
use crate::order::lemma_next_in_order;
use crate::order::lists_in_order;
use crate::policy::begin_of;
use crate::policy::end_of;
use crate::policy::generated_entries;
use crate::policy::preserve_entries;
use crate::policy::split_entries;
use crate::policy::split_one;
use crate::policy::splittable;
use crate::render::cancelled_label;
use crate::render::description_lines;
use crate::render::kept;
use crate::render::performers_line;
use crate::render::pricing_line;
use crate::render::summary_text;
use crate::render::text_block;
use crate::render::entry_of;
use crate::time::FIRST_DAY;
use crate::time::LAST_DAY;
use vstd::prelude::*;

verus! {

/// None of `occs` is long-term.
pub open spec fn all_short(occs: Seq<OccurrenceView>) -> bool {
    forall|i: int| 0 <= i < occs.len() ==> !(#[trigger] occs[i]).is_long_term
}

/// Occurrences that are not long-term get the same entries under every
/// treatment: where none is long-term, the three treatments give the same
/// calendar.
pub proof fn lemma_short_occurrences_pass(occs: Seq<OccurrenceView>, lang: Seq<char>)
    requires
        all_short(occs),
    ensures
        generated_entries(occs, lang, LongtermHandling::Split) == generated_entries(
            occs,
            lang,
            LongtermHandling::Preserve,
        ),
        generated_entries(occs, lang, LongtermHandling::Aggregate) == generated_entries(
            occs,
            lang,
            LongtermHandling::Preserve,
        ),
    decreases occs.len(),
{
    let none = Seq::<int>::empty();
    assert forall|x: int| none.contains(x) <==> break_day_map(occs).dom().contains(x) by {
        if break_day_map(occs).dom().contains(x) {
            assert(is_break_day(occs, x));
        }
    }
    assert(lists_in_order(none, break_day_map(occs).dom()));
    lemma_in_order_is(none, break_day_map(occs).dom());
    assert(longterm_entries(occs, lang) =~= Seq::empty());
    if occs.len() == 0 {
        assert(split_entries(occs, lang) =~= preserve_entries(occs, lang));
        assert(aggregate_entries(occs, lang) =~= preserve_entries(occs, lang));
    } else {
        let rest = occs.drop_last();
        assert(all_short(rest)) by {
            assert forall|i: int| 0 <= i < rest.len() implies !(#[trigger] rest[i]).is_long_term by {
                assert(rest[i] == occs[i]);
            }
        }
        lemma_short_occurrences_pass(rest, lang);
        let none_rest = Seq::<int>::empty();
        assert forall|x: int| none_rest.contains(x) <==> break_day_map(rest).dom().contains(x) by {
            if break_day_map(rest).dom().contains(x) {
                assert(is_break_day(rest, x));
            }
        }
        lemma_in_order_is(none_rest, break_day_map(rest).dom());
        assert(longterm_entries(rest, lang) =~= Seq::empty());
        assert(short_entries(rest, lang) =~= preserve_entries(rest, lang));
        assert(!occs[occs.len() - 1].is_long_term);
        assert(preserve_entries(occs, lang) =~= preserve_entries(rest, lang) + seq![
            entry_of(occs.last(), lang),
        ]);
        assert(split_entries(occs, lang) =~= preserve_entries(occs, lang));
        assert(aggregate_entries(occs, lang) =~= preserve_entries(occs, lang));
    }
}

/// An occurrence that is not long-term stands in a split calendar as its own
/// entry, the one it has in a calendar that preserves long-term occurrences;
/// and where long-term occurrences are aggregated, the entries of the others
/// come first, each as its own entry.
pub proof fn lemma_short_entry_is_own(occs: Seq<OccurrenceView>, lang: Seq<char>, i: int)
    requires
        0 <= i < occs.len(),
        !occs[i].is_long_term,
    ensures
        split_one(occs[i], lang) == seq![preserve_entries(occs, lang)[i]],
        short_entries(occs, lang).contains(preserve_entries(occs, lang)[i]),
        aggregate_entries(occs, lang).contains(preserve_entries(occs, lang)[i]),
    decreases occs.len(),
{
    let own = entry_of(occs[i], lang);
    let rest = occs.drop_last();
    let shorts = short_entries(occs, lang);
    if i == occs.len() - 1 {
        assert(shorts[shorts.len() - 1] == own);
    } else {
        assert(rest[i] == occs[i]);
        lemma_short_entry_is_own(rest, lang, i);
        let k = choose|k: int|
            0 <= k < short_entries(rest, lang).len() && short_entries(rest, lang)[k] == own;
        assert(shorts[k] == own);
    }
    let k = choose|k: int| 0 <= k < shorts.len() && shorts[k] == own;
    assert(aggregate_entries(occs, lang)[k] == own);
}

/// The days from the start of an entry up to, not including, its end, as
/// numbers; for an entry given by seconds, the seconds.
pub open spec fn span_of(e: CalendarEntryView) -> (int, int) {
    (
        match e.start {
            EntryTime::Date(day) => day as int,
            EntryTime::Moment(second) => second as int,
        },
        match e.end {
            EntryTime::Date(day) => day as int,
            EntryTime::Moment(second) => second as int,
        },
    )
}

/// A long-term occurrence is split into exactly two entries, one that lies
/// on the day it starts and one that lies on the day it ends. Their ids differ
/// from its own and from each other. The first starts where the entry of the
/// whole would start, the second ends where that would end, and neither is
/// empty. Where the occurrence ends on the day after it starts, on one local
/// clock or taking whole days, the second entry starts where the first ends:
/// there is no gap between them and they do not overlap.
pub proof fn lemma_split_conservation(o: OccurrenceView, lang: Seq<char>)
    requires
        o.wf(),
        o.is_long_term,
        splittable(o),
    ensures
        split_one(o, lang).len() == 2,
        split_one(o, lang)[0] == entry_of(begin_of(o, lang), lang),
        split_one(o, lang)[1] == entry_of(end_of(o, lang), lang),
        begin_of(o, lang).wf(),
        end_of(o, lang).wf(),
        begin_of(o, lang).id != o.id,
        end_of(o, lang).id != o.id,
        begin_of(o, lang).id != end_of(o, lang).id,
        begin_of(o, lang).start_day() == o.start_day(),
        begin_of(o, lang).end_day() == o.start_day(),
        end_of(o, lang).start_day() == o.end_day(),
        end_of(o, lang).end_day() == o.end_day(),
        span_of(split_one(o, lang)[0]).0 == span_of(entry_of(o, lang)).0,
        span_of(split_one(o, lang)[1]).1 == span_of(entry_of(o, lang)).1,
        span_of(split_one(o, lang)[0]).0 < span_of(split_one(o, lang)[0]).1,
        span_of(split_one(o, lang)[1]).0 < span_of(split_one(o, lang)[1]).1,
        o.end_day() == o.start_day() + 1 && (o.hour_ignored || o.start.offset_seconds
            == o.end.offset_seconds) ==> span_of(split_one(o, lang)[0]).1 == span_of(
            split_one(o, lang)[1],
        ).0,
{
    o.start.lemma_day_bounds();
    o.end.lemma_day_bounds();
}

/// The occurrences that are active when `n` break days have been visited.
spec fn active_at(occs: Seq<OccurrenceView>, n: int) -> Seq<OccurrenceView> {
    sweep_active(break_day_map(occs), break_days(occs), n)
}

/// The entries made while the first `n` break days are visited.
spec fn entries_at(occs: Seq<OccurrenceView>, lang: Seq<char>, n: int) -> Seq<CalendarEntryView> {
    swept_entries(break_day_map(occs), break_days(occs), n, lang)
}

/// The entry made on reaching the `p`-th break day.
spec fn entry_at(occs: Seq<OccurrenceView>, lang: Seq<char>, p: int) -> CalendarEntryView {
    aggregate_entry(break_days(occs)[p - 2], break_days(occs)[p - 1], active_at(occs, p - 1), lang)
}

/// The `k`-th entry is the one made on reaching the `p`-th break day.
spec fn made_at(occs: Seq<OccurrenceView>, lang: Seq<char>, k: int, p: int) -> bool {
    &&& 2 <= p <= break_days(occs).len()
    &&& entries_at(occs, lang, p - 1).len() == k
    &&& active_at(occs, p - 1).len() > 0
    &&& 0 <= k < longterm_entries(occs, lang).len()
    &&& longterm_entries(occs, lang)[k] == entry_at(occs, lang, p)
}

proof fn lemma_prefix(occs: Seq<OccurrenceView>, lang: Seq<char>, p: int, n: int)
    requires
        0 <= p <= n <= break_days(occs).len(),
    ensures
        entries_at(occs, lang, p).len() <= entries_at(occs, lang, n).len(),
        forall|k: int|
            0 <= k < entries_at(occs, lang, p).len() ==> entries_at(occs, lang, n)[k]
                == entries_at(occs, lang, p)[k],
    decreases n - p,
{
    if p < n {
        lemma_prefix(occs, lang, p, n - 1);
    }
}

proof fn lemma_entry_made_upto(occs: Seq<OccurrenceView>, lang: Seq<char>, n: int, k: int) -> (p:
    int)
    requires
        0 <= n <= break_days(occs).len(),
        0 <= k < entries_at(occs, lang, n).len(),
    ensures
        2 <= p <= n,
        entries_at(occs, lang, p - 1).len() == k,
        active_at(occs, p - 1).len() > 0,
        entries_at(occs, lang, n)[k] == entry_at(occs, lang, p),
    decreases n,
{
    if k < entries_at(occs, lang, n - 1).len() {
        lemma_entry_made_upto(occs, lang, n - 1, k)
    } else {
        assert(active_at(occs, n - 1).len() > 0);
        assert(n - 1 > 0);
        n
    }
}

proof fn lemma_entry_made(occs: Seq<OccurrenceView>, lang: Seq<char>, k: int) -> (p: int)
    requires
        0 <= k < longterm_entries(occs, lang).len(),
    ensures
        made_at(occs, lang, k, p),
{
    lemma_entry_made_upto(occs, lang, break_days(occs).len() as int, k)
}

proof fn lemma_step_makes(occs: Seq<OccurrenceView>, lang: Seq<char>, p: int)
    requires
        2 <= p <= break_days(occs).len(),
        active_at(occs, p - 1).len() > 0,
    ensures
        made_at(occs, lang, entries_at(occs, lang, p - 1).len() as int, p),
{
    lemma_prefix(occs, lang, p, break_days(occs).len() as int);
    let k = entries_at(occs, lang, p - 1).len() as int;
    assert(entries_at(occs, lang, p)[k] == entry_at(occs, lang, p));
}

/// Entries are made in the order of the break days.
proof fn lemma_steps_in_order(
    occs: Seq<OccurrenceView>,
    lang: Seq<char>,
    k1: int,
    step1: int,
    k2: int,
    step2: int,
)
    requires
        made_at(occs, lang, k1, step1),
        made_at(occs, lang, k2, step2),
        k1 < k2,
    ensures
        step1 < step2,
{
    if step1 >= step2 {
        lemma_prefix(occs, lang, step2, step1);
        lemma_prefix(occs, lang, step1 - 1, step1);
        if step1 > step2 {
            lemma_prefix(occs, lang, step2, step1 - 1);
        }
    }
}

/// A break day of well-formed occurrences can be written as a date.
proof fn lemma_break_day_range(occs: Seq<OccurrenceView>, day: int)
    requires
        all_wf(occs),
        is_break_day(occs, day),
    ensures
        FIRST_DAY <= day <= LAST_DAY + 1,
{
    let k = choose|k: int|
        0 <= k < occs.len() && (#[trigger] occs[k]).is_long_term && (occs[k].start_day() == day
            || occs[k].end_day() + 1 == day);
    assert(occs[k].wf());
    occs[k].start.lemma_day_bounds();
    occs[k].end.lemma_day_bounds();
}

/// What is known of the break days: they ascend, they are exactly the days
/// on which a long-term occurrence starts or has just ended, and they are
/// dates.
proof fn lemma_days(occs: Seq<OccurrenceView>)
    requires
        all_wf(occs),
    ensures
        ascending(break_days(occs)),
        forall|d: int| break_days(occs).contains(d) <==> is_break_day(occs, d),
        forall|q: int|
            0 <= q < break_days(occs).len() ==> FIRST_DAY <= #[trigger] break_days(occs)[q]
                <= LAST_DAY + 1,
{
    lemma_break_days(occs);
    let days = break_days(occs);
    assert forall|d: int| days.contains(d) <==> is_break_day(occs, d) by {
        assert(break_day_map(occs).dom().contains(d) <==> is_break_day(occs, d));
    }
    assert forall|q: int| 0 <= q < days.len() implies FIRST_DAY <= #[trigger] days[q] <= LAST_DAY
        + 1 by {
        assert(days.contains(days[q]));
        lemma_break_day_range(occs, days[q]);
    }
}

/// No long-term occurrence has its id ended by another within its own span.
spec fn ends_apart(occs: Seq<OccurrenceView>) -> bool {
    forall|i: int, k: int|
        0 <= i < occs.len() && 0 <= k < occs.len() && (#[trigger] occs[i]).is_long_term && (
        #[trigger] occs[k]).is_long_term && occs[k].id == occs[i].id ==> !(occs[i].start_day()
            < occs[k].end_day() + 1 <= occs[i].end_day())
}

/// A long-term occurrence whose span holds the last break day visited is
/// active.
proof fn lemma_spanning_is_active(occs: Seq<OccurrenceView>, n: int, i: int)
    requires
        all_wf(occs),
        ends_apart(occs),
        1 <= n <= break_days(occs).len(),
        0 <= i < occs.len(),
        occs[i].is_long_term,
        occs[i].start_day() <= break_days(occs)[n - 1] <= occs[i].end_day(),
    ensures
        active_at(occs, n).contains(occs[i]),
    decreases n,
{
    lemma_days(occs);
    let days = break_days(occs);
    let day = days[n - 1];
    let m = break_day_map(occs);
    assert(days.contains(day));
    assert(m.dom().contains(day));
    let before = active_at(occs, n - 1);
    let kept = still_active(before, end_ids(occs, day));
    let now = active_at(occs, n);
    assert(now == kept + starts_on(occs, day));
    if occs[i].start_day() == day {
        lemma_starts_on_members(occs, day);
        let k = choose|k: int|
            0 <= k < starts_on(occs, day).len() && starts_on(occs, day)[k] == occs[i];
        assert(now[kept.len() + k] == occs[i]);
    } else {
        assert(is_break_day(occs, occs[i].start_day()));
        assert(days.contains(occs[i].start_day()));
        let a = choose|a: int| 0 <= a < days.len() && days[a] == occs[i].start_day();
        if a >= n - 1 {
            if a > n - 1 {
                assert(days[n - 1] < days[a]);
            }
        }
        assert(a <= n - 2);
        if a < n - 2 {
            assert(days[a] < days[n - 2]);
        }
        assert(days[n - 2] < days[n - 1]);
        lemma_spanning_is_active(occs, n - 1, i);
        let b = choose|b: int| 0 <= b < before.len() && before[b] == occs[i];
        if end_ids(occs, day).contains(occs[i].id) {
            let k = choose|k: int|
                0 <= k < occs.len() && (#[trigger] occs[k]).is_long_term && occs[k].id
                    == occs[i].id && occs[k].end_day() + 1 == day;
            assert(occs[i].start_day() < occs[k].end_day() + 1 <= occs[i].end_day());
        }
        lemma_still_active_members(before, end_ids(occs, day));
        assert(kept.contains(before[b]));
        let c = choose|c: int| 0 <= c < kept.len() && kept[c] == occs[i];
        assert(now[c] == occs[i]);
    }
}

/// The last of ascending `days` that is not after `day`.
proof fn lemma_locate(days: Seq<int>, day: int) -> (q: int)
    requires
        ascending(days),
        days.len() >= 1,
        days[0] <= day,
    ensures
        0 <= q < days.len(),
        days[q] <= day,
        q + 1 < days.len() ==> day < days[q + 1],
    decreases days.len(),
{
    if days.last() <= day {
        days.len() - 1
    } else {
        let fewer = days.drop_last();
        assert(ascending(fewer)) by {
            assert forall|i: int, j: int| 0 <= i < j < fewer.len() implies fewer[i] < fewer[j] by {
                assert(days[i] < days[j]);
            }
        }
        lemma_locate(fewer, day)
    }
}

/// The day `day` lies in the span of entry `e`, an entry of whole days.
pub open spec fn covers(e: CalendarEntryView, day: int) -> bool {
    match (e.start, e.end) {
        (EntryTime::Date(first), EntryTime::Date(after)) => first <= day < after,
        _ => false,
    }
}

/// Some entry of `entries` covers `day`.
pub open spec fn covered(entries: Seq<CalendarEntryView>, day: int) -> bool {
    exists|k: int| 0 <= k < entries.len() && covers(#[trigger] entries[k], day)
}

/// Some long-term occurrence of `occs` is on on `day`.
pub open spec fn occupied(occs: Seq<OccurrenceView>, day: int) -> bool {
    exists|i: int|
        0 <= i < occs.len() && (#[trigger] occs[i]).is_long_term && occs[i].start_day() <= day
            <= occs[i].end_day()
}

/// No two long-term occurrences of `occs` have the same id.
pub open spec fn distinct_ids(occs: Seq<OccurrenceView>) -> bool {
    forall|i: int, j: int|
        0 <= i < j < occs.len() && (#[trigger] occs[i]).is_long_term && (
        #[trigger] occs[j]).is_long_term ==> occs[i].id != occs[j].id
}

/// What the entry made on reaching the `p`-th break day covers.
proof fn lemma_entry_span(occs: Seq<OccurrenceView>, lang: Seq<char>, p: int, day: int)
    requires
        all_wf(occs),
        2 <= p <= break_days(occs).len(),
    ensures
        covers(entry_at(occs, lang, p), day) <==> break_days(occs)[p - 2] <= day < break_days(
            occs,
        )[p - 1],
{
    lemma_days(occs);
    let days = break_days(occs);
    assert(FIRST_DAY <= days[p - 2] <= LAST_DAY + 1);
    assert(FIRST_DAY <= days[p - 1] <= LAST_DAY + 1);
}

proof fn lemma_distinct_ends_apart(occs: Seq<OccurrenceView>)
    requires
        all_wf(occs),
        distinct_ids(occs),
    ensures
        ends_apart(occs),
{
    assert forall|i: int, k: int|
        0 <= i < occs.len() && 0 <= k < occs.len() && (#[trigger] occs[i]).is_long_term && (
        #[trigger] occs[k]).is_long_term && occs[k].id == occs[i].id implies !(occs[i].start_day()
        < occs[k].end_day() + 1 <= occs[i].end_day()) by {
        if i < k {
            assert(occs[i].id != occs[k].id);
        } else if k < i {
            assert(occs[k].id != occs[i].id);
        }
    }
}

proof fn lemma_covered_is_occupied(occs: Seq<OccurrenceView>, lang: Seq<char>, day: int)
    requires
        all_wf(occs),
        covered(longterm_entries(occs, lang), day),
    ensures
        occupied(occs, day),
{
    lemma_days(occs);
    let days = break_days(occs);
    let entries = longterm_entries(occs, lang);
    let k = choose|k: int| 0 <= k < entries.len() && covers(#[trigger] entries[k], day);
    let p = lemma_entry_made(occs, lang, k);
    lemma_entry_span(occs, lang, p, day);
    lemma_active_in_span(occs, p - 1);
    let o = active_at(occs, p - 1)[0];
    let i = choose|i: int| 0 <= i < occs.len() && occs[i] == o;
    assert(is_break_day(occs, o.end_day() + 1));
    assert(days.contains(o.end_day() + 1));
    lemma_next_in_order(days, p - 2, o.end_day() + 1);
    assert(occs[i].is_long_term && occs[i].start_day() <= day <= occs[i].end_day());
}

proof fn lemma_occupied_is_covered(occs: Seq<OccurrenceView>, lang: Seq<char>, day: int)
    requires
        all_wf(occs),
        ends_apart(occs),
        occupied(occs, day),
    ensures
        covered(longterm_entries(occs, lang), day),
{
    lemma_days(occs);
    let days = break_days(occs);
    let entries = longterm_entries(occs, lang);
    let i = choose|i: int|
        0 <= i < occs.len() && (#[trigger] occs[i]).is_long_term && occs[i].start_day() <= day
            <= occs[i].end_day();
    let start = occs[i].start_day();
    let after = occs[i].end_day() + 1;
    assert(is_break_day(occs, start));
    assert(is_break_day(occs, after));
    assert(days.contains(start));
    assert(days.contains(after));
    let a = choose|a: int| 0 <= a < days.len() && days[a] == start;
    if a > 0 {
        assert(days[0] < days[a]);
    }
    let q = lemma_locate(days, day);
    if days[q] < start {
        lemma_next_in_order(days, q, start);
    }
    if days[q] < after {
        lemma_next_in_order(days, q, after);
    }
    lemma_spanning_is_active(occs, q + 1, i);
    lemma_step_makes(occs, lang, q + 2);
    let k = entries_at(occs, lang, q + 1).len() as int;
    lemma_entry_span(occs, lang, q + 2, day);
    assert(covers(entries[k], day));
}

proof fn lemma_entries_apart(
    occs: Seq<OccurrenceView>,
    lang: Seq<char>,
    k1: int,
    k2: int,
    day: int,
)
    requires
        all_wf(occs),
        0 <= k1 < k2 < longterm_entries(occs, lang).len(),
    ensures
        !(covers(longterm_entries(occs, lang)[k1], day) && covers(
            longterm_entries(occs, lang)[k2],
            day,
        )),
{
    lemma_days(occs);
    let days = break_days(occs);
    let step1 = lemma_entry_made(occs, lang, k1);
    let step2 = lemma_entry_made(occs, lang, k2);
    lemma_steps_in_order(occs, lang, k1, step1, k2, step2);
    lemma_entry_span(occs, lang, step1, day);
    lemma_entry_span(occs, lang, step2, day);
    if step1 - 1 < step2 - 2 {
        assert(days[step1 - 1] < days[step2 - 2]);
    }
}

/// Aggregated entries cover exactly the days on which a long-term
/// occurrence is on, and no day twice, provided that no two long-term
/// occurrences have the same id.
pub proof fn lemma_aggregate_coverage(occs: Seq<OccurrenceView>, lang: Seq<char>)
    requires
        all_wf(occs),
        distinct_ids(occs),
    ensures
        forall|day: int| #[trigger]
            covered(longterm_entries(occs, lang), day) <==> occupied(occs, day),
        forall|k1: int, k2: int, day: int|
            0 <= k1 < k2 < longterm_entries(occs, lang).len() ==> !(#[trigger] covers(
                longterm_entries(occs, lang)[k1],
                day,
            ) && #[trigger] covers(longterm_entries(occs, lang)[k2], day)),
{
    lemma_distinct_ends_apart(occs);
    assert forall|day: int| #[trigger]
        covered(longterm_entries(occs, lang), day) <==> occupied(occs, day) by {
        if covered(longterm_entries(occs, lang), day) {
            lemma_covered_is_occupied(occs, lang, day);
        }
        if occupied(occs, day) {
            lemma_occupied_is_covered(occs, lang, day);
        }
    }
    assert forall|k1: int, k2: int, day: int|
        0 <= k1 < k2 < longterm_entries(occs, lang).len() implies !(#[trigger] covers(
        longterm_entries(occs, lang)[k1],
        day,
    ) && #[trigger] covers(longterm_entries(occs, lang)[k2], day)) by {
        lemma_entries_apart(occs, lang, k1, k2, day);
    }
}

/// No two long-term occurrences of `occs` are on on the same day.
pub open spec fn no_overlap(occs: Seq<OccurrenceView>) -> bool {
    forall|i: int, j: int|
        0 <= i < j < occs.len() && (#[trigger] occs[i]).is_long_term && (
        #[trigger] occs[j]).is_long_term ==> occs[i].end_day() < occs[j].start_day()
            || occs[j].end_day() < occs[i].start_day()
}

/// The entry of a long-term occurrence that is alone on each of its days: the
/// occurrence's own entry, for the days from its first to its last.
pub open spec fn single_entry(o: OccurrenceView, lang: Seq<char>) -> CalendarEntryView {
    aggregate_entry(o.start_day(), o.end_day() + 1, seq![o], lang)
}

/// `e` is the entry of a long-term occurrence of `occs` alone.
pub open spec fn stands_for_one(occs: Seq<OccurrenceView>, lang: Seq<char>, e: CalendarEntryView) -> bool {
    exists|i: int|
        0 <= i < occs.len() && (#[trigger] occs[i]).is_long_term && e == single_entry(
            occs[i],
            lang,
        )
}

proof fn lemma_apart(occs: Seq<OccurrenceView>, i: int, j: int)
    requires
        no_overlap(occs),
        0 <= i < occs.len(),
        0 <= j < occs.len(),
        i != j,
        occs[i].is_long_term,
        occs[j].is_long_term,
    ensures
        occs[i].end_day() < occs[j].start_day() || occs[j].end_day() < occs[i].start_day(),
{
    if i < j {
        assert(occs[i].is_long_term && occs[j].is_long_term);
    } else {
        assert(occs[j].is_long_term && occs[i].is_long_term);
    }
}

proof fn lemma_apart_ends_apart(occs: Seq<OccurrenceView>)
    requires
        all_wf(occs),
        no_overlap(occs),
    ensures
        ends_apart(occs),
{
    assert forall|i: int, k: int|
        0 <= i < occs.len() && 0 <= k < occs.len() && (#[trigger] occs[i]).is_long_term && (
        #[trigger] occs[k]).is_long_term && occs[k].id == occs[i].id implies !(occs[i].start_day()
        < occs[k].end_day() + 1 <= occs[i].end_day()) by {
        assert(occs[k].wf());
        assert(occs[i].wf());
        if i != k {
            lemma_apart(occs, i, k);
        }
    }
}

proof fn lemma_one_start(occs: Seq<OccurrenceView>, day: int)
    requires
        all_wf(occs),
        no_overlap(occs),
    ensures
        starts_on(occs, day).len() <= 1,
    decreases occs.len(),
{
    if occs.len() > 0 {
        let rest = occs.drop_last();
        assert(all_wf(rest)) by {
            assert forall|i: int| 0 <= i < rest.len() implies (#[trigger] rest[i]).wf() by {
                assert(occs[i].wf());
            }
        }
        assert(no_overlap(rest)) by {
            assert forall|i: int, j: int|
                0 <= i < j < rest.len() && (#[trigger] rest[i]).is_long_term && (
                #[trigger] rest[j]).is_long_term implies rest[i].end_day() < rest[j].start_day()
                || rest[j].end_day() < rest[i].start_day() by {
                lemma_apart(occs, i, j);
            }
        }
        lemma_one_start(rest, day);
        let last = occs.last();
        if last.is_long_term && last.start_day() == day && starts_on(rest, day).len() > 0 {
            lemma_starts_on_members(rest, day);
            let x = starts_on(rest, day)[0];
            let j = choose|j: int| 0 <= j < rest.len() && rest[j] == x;
            assert(occs[j] == x);
            assert(occs[j].wf());
            assert(occs[occs.len() - 1].wf());
            lemma_apart(occs, j, occs.len() - 1);
        }
    }
}

proof fn lemma_still_active_len(active: Seq<OccurrenceView>, ended: Set<u64>)
    ensures
        still_active(active, ended).len() <= active.len(),
    decreases active.len(),
{
    if active.len() > 0 {
        lemma_still_active_len(active.drop_last(), ended);
    }
}

proof fn lemma_at_most_one_active(occs: Seq<OccurrenceView>, n: int)
    requires
        all_wf(occs),
        no_overlap(occs),
        0 <= n <= break_days(occs).len(),
    ensures
        active_at(occs, n).len() <= 1,
    decreases n,
{
    if n > 0 {
        lemma_days(occs);
        lemma_at_most_one_active(occs, n - 1);
        let days = break_days(occs);
        let day = days[n - 1];
        assert(days.contains(day));
        assert(break_day_map(occs).dom().contains(day));
        let before = active_at(occs, n - 1);
        let kept = still_active(before, end_ids(occs, day));
        let starts = starts_on(occs, day);
        assert(active_at(occs, n) == kept + starts);
        lemma_still_active_len(before, end_ids(occs, day));
        lemma_one_start(occs, day);
        if starts.len() > 0 && kept.len() > 0 {
            lemma_still_active_members(before, end_ids(occs, day));
            lemma_active_in_span(occs, n - 1);
            lemma_starts_on_members(occs, day);
            let x = kept[0];
            assert(before.contains(x));
            let b = choose|b: int| 0 <= b < before.len() && before[b] == x;
            assert(before[b] == x);
            let ix = choose|i: int| 0 <= i < occs.len() && occs[i] == x;
            assert(is_break_day(occs, x.end_day() + 1));
            assert(days.contains(x.end_day() + 1));
            lemma_next_in_order(days, n - 2, x.end_day() + 1);
            if x.end_day() + 1 == day {
                assert(occs[ix].is_long_term);
                assert(end_ids(occs, day).contains(x.id));
            }
            let y = starts[0];
            let iy = choose|i: int| 0 <= i < occs.len() && occs[i] == y;
            assert(occs[iy].wf());
            assert(days[n - 2] < days[n - 1]);
            lemma_apart(occs, ix, iy);
        }
    }
}

/// Where no two long-term occurrences overlap, the entry made on reaching a
/// break day stands for one occurrence, from its first day to its last.
proof fn lemma_single_span(occs: Seq<OccurrenceView>, lang: Seq<char>, p: int) -> (i: int)
    requires
        all_wf(occs),
        no_overlap(occs),
        2 <= p <= break_days(occs).len(),
        active_at(occs, p - 1).len() > 0,
    ensures
        0 <= i < occs.len(),
        occs[i].is_long_term,
        active_at(occs, p - 1) == seq![occs[i]],
        break_days(occs)[p - 2] == occs[i].start_day(),
        break_days(occs)[p - 1] == occs[i].end_day() + 1,
        entry_at(occs, lang, p) == single_entry(occs[i], lang),
{
    lemma_days(occs);
    lemma_at_most_one_active(occs, p - 1);
    lemma_active_in_span(occs, p - 1);
    let days = break_days(occs);
    let active = active_at(occs, p - 1);
    let o = active[0];
    let i = choose|i: int| 0 <= i < occs.len() && occs[i] == o;
    assert(active =~= seq![occs[i]]);
    assert(occs[i].wf());
    let first = days[p - 2];
    if o.start_day() < first {
        assert(days.contains(first));
        assert(is_break_day(occs, first));
        let j = choose|j: int|
            0 <= j < occs.len() && (#[trigger] occs[j]).is_long_term && (occs[j].start_day()
                == first || occs[j].end_day() + 1 == first);
        assert(occs[j].wf());
        if j != i {
            lemma_apart(occs, i, j);
        }
    }
    assert(is_break_day(occs, o.end_day() + 1));
    assert(days.contains(o.end_day() + 1));
    lemma_next_in_order(days, p - 2, o.end_day() + 1);
    let after = days[p - 1];
    if after < o.end_day() + 1 {
        assert(days.contains(after));
        assert(is_break_day(occs, after));
        assert(days[p - 2] < days[p - 1]);
        let j = choose|j: int|
            0 <= j < occs.len() && (#[trigger] occs[j]).is_long_term && (occs[j].start_day()
                == after || occs[j].end_day() + 1 == after);
        assert(occs[j].wf());
        if j != i {
            lemma_apart(occs, i, j);
        }
    }
    i
}

proof fn lemma_one_has_entry(occs: Seq<OccurrenceView>, lang: Seq<char>, i: int)
    requires
        all_wf(occs),
        no_overlap(occs),
        0 <= i < occs.len(),
        occs[i].is_long_term,
    ensures
        longterm_entries(occs, lang).contains(single_entry(occs[i], lang)),
{
    lemma_days(occs);
    let days = break_days(occs);
    let start = occs[i].start_day();
    let after = occs[i].end_day() + 1;
    assert(occs[i].wf());
    assert(is_break_day(occs, start));
    assert(is_break_day(occs, after));
    assert(days.contains(start));
    assert(days.contains(after));
    let a = choose|a: int| 0 <= a < days.len() && days[a] == start;
    lemma_next_in_order(days, a, after);
    lemma_apart_ends_apart(occs);
    lemma_spanning_is_active(occs, a + 1, i);
    let j = lemma_single_span(occs, lang, a + 2);
    let active = active_at(occs, a + 1);
    let c = choose|c: int| 0 <= c < active.len() && active[c] == occs[i];
    assert(active[c] == occs[i]);
    assert(occs[j] == occs[i]);
    lemma_step_makes(occs, lang, a + 2);
    let k = entries_at(occs, lang, a + 1).len() as int;
    assert(longterm_entries(occs, lang)[k] == single_entry(occs[i], lang));
}

proof fn lemma_entry_is_one(occs: Seq<OccurrenceView>, lang: Seq<char>, k: int)
    requires
        all_wf(occs),
        no_overlap(occs),
        0 <= k < longterm_entries(occs, lang).len(),
    ensures
        stands_for_one(occs, lang, longterm_entries(occs, lang)[k]),
{
    let p = lemma_entry_made(occs, lang, k);
    let i = lemma_single_span(occs, lang, p);
    assert(occs[i].is_long_term && longterm_entries(occs, lang)[k] == single_entry(occs[i], lang));
}

proof fn lemma_entries_differ(occs: Seq<OccurrenceView>, lang: Seq<char>, k1: int, k2: int)
    requires
        all_wf(occs),
        0 <= k1 < k2 < longterm_entries(occs, lang).len(),
    ensures
        longterm_entries(occs, lang)[k1] != longterm_entries(occs, lang)[k2],
{
    lemma_days(occs);
    let days = break_days(occs);
    let step1 = lemma_entry_made(occs, lang, k1);
    let step2 = lemma_entry_made(occs, lang, k2);
    lemma_steps_in_order(occs, lang, k1, step1, k2, step2);
    assert(days[step1 - 2] < days[step2 - 2]);
    lemma_entry_span(occs, lang, step1, days[step1 - 2]);
    lemma_entry_span(occs, lang, step2, days[step1 - 2]);
}

proof fn lemma_singles_differ(occs: Seq<OccurrenceView>, lang: Seq<char>, i: int, j: int)
    requires
        all_wf(occs),
        no_overlap(occs),
        0 <= i < j < occs.len(),
        occs[i].is_long_term,
        occs[j].is_long_term,
    ensures
        single_entry(occs[i], lang) != single_entry(occs[j], lang),
{
    assert(occs[i].wf());
    assert(occs[j].wf());
    lemma_apart(occs, i, j);
    occs[i].start.lemma_day_bounds();
    occs[j].start.lemma_day_bounds();
}

/// Where no two long-term occurrences overlap, aggregating them gives one
/// entry for each and no other: every long-term occurrence has its own
/// entry, for the days from its first to its last, among the aggregated
/// entries; every aggregated entry is the entry of one of them; and no two
/// entries, and no two occurrences' entries, are the same.
pub proof fn lemma_singleton_reduction(occs: Seq<OccurrenceView>, lang: Seq<char>)
    requires
        all_wf(occs),
        no_overlap(occs),
    ensures
        forall|i: int|
            0 <= i < occs.len() && (#[trigger] occs[i]).is_long_term ==> longterm_entries(
                occs,
                lang,
            ).contains(single_entry(occs[i], lang)),
        forall|k: int|
            0 <= k < longterm_entries(occs, lang).len() ==> stands_for_one(
                occs,
                lang,
                #[trigger] longterm_entries(occs, lang)[k],
            ),
        forall|k1: int, k2: int|
            0 <= k1 < k2 < longterm_entries(occs, lang).len() ==> #[trigger] longterm_entries(
                occs,
                lang,
            )[k1] != #[trigger] longterm_entries(occs, lang)[k2],
        forall|i: int, j: int|
            0 <= i < j < occs.len() && (#[trigger] occs[i]).is_long_term && (
            #[trigger] occs[j]).is_long_term ==> single_entry(occs[i], lang) != single_entry(
                occs[j],
                lang,
            ),
{
    assert forall|i: int|
        0 <= i < occs.len() && (#[trigger] occs[i]).is_long_term implies longterm_entries(
        occs,
        lang,
    ).contains(single_entry(occs[i], lang)) by {
        lemma_one_has_entry(occs, lang, i);
    }
    assert forall|k: int| 0 <= k < longterm_entries(occs, lang).len() implies stands_for_one(
        occs,
        lang,
        #[trigger] longterm_entries(occs, lang)[k],
    ) by {
        lemma_entry_is_one(occs, lang, k);
    }
    assert forall|k1: int, k2: int|
        0 <= k1 < k2 < longterm_entries(occs, lang).len() implies #[trigger] longterm_entries(
        occs,
        lang,
    )[k1] != #[trigger] longterm_entries(occs, lang)[k2] by {
        lemma_entries_differ(occs, lang, k1, k2);
    }
    assert forall|i: int, j: int|
        0 <= i < j < occs.len() && (#[trigger] occs[i]).is_long_term && (
        #[trigger] occs[j]).is_long_term implies single_entry(occs[i], lang) != single_entry(
        occs[j],
        lang,
    ) by {
        lemma_singles_differ(occs, lang, i, j);
    }
}

/// The summary of a cancelled occurrence begins with the Czech label for
/// the language code "cs" and with the English label for any other.
pub proof fn lemma_cancelled_prefix(o: OccurrenceView, lang: Seq<char>)
    requires
        o.cancelled,
    ensures
        lang == "cs"@ ==> "Zrušeno: "@.is_prefix_of(summary_text(o, lang)),
        lang != "cs"@ ==> "Cancelled: "@.is_prefix_of(summary_text(o, lang)),
{
    reveal_strlit("cs");
    assert("cs"@ =~= seq!['c', 's']);
    let label = cancelled_label(lang);
    let summary = summary_text(o, lang);
    assert(summary.subrange(0, label.len() as int) =~= label);
}

/// An occurrence without pricing and without currency has no line for them
/// in its description, not even an empty one: the description is made of the
/// line of performers, if it is not blank, the event's text, if it is asked for
/// and not blank, and the URL.
pub proof fn lemma_no_pricing_line(o: OccurrenceView, with_text: bool)
    requires
        o.pricing.len() == 0,
        o.currency.len() == 0,
    ensures
        description_lines(o, with_text) == kept(performers_line(o)) + (if with_text {
            text_block(o)
        } else {
            Seq::empty()
        }) + seq![o.url],
        description_lines(o, with_text).len() <= 3,
{
    assert(pricing_line(o) =~= Seq::<char>::empty());
    assert(kept(pricing_line(o)) =~= Seq::<Seq<char>>::empty());
    assert(description_lines(o, with_text) =~= kept(performers_line(o)) + (if with_text {
        text_block(o)
    } else {
        Seq::empty()
    }) + seq![o.url]);
}

} // verus!
