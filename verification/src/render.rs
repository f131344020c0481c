//! From one occurrence to one calendar entry: identity, span, location,
//! summary and description.

use crate::entry::CalendarEntry;
use crate::entry::CalendarEntryView;
use crate::entry::EntryDetail;
use crate::entry::EntryDetailView;
use crate::entry::EntryTime;
use crate::model::Occurrence;
use crate::model::OccurrenceView;
use crate::model::PerformerView;
use crate::model::VenueView;
use crate::model::performer_views;
use crate::text::decimal;
use crate::text::decimal_string;
use crate::text::is_blank;
use crate::text::is_blank_str;
use crate::text::is_czech;
use crate::text::is_czech_code;
use crate::text::join;
use crate::text::join_strings;
use crate::text::texts;
use crate::text::trim;
use crate::text::trimmed;
use vstd::prelude::*;
use vstd::string::*;

verus! {

/// Where in its course a long-term occurrence stands on a given day.
#[derive(Clone, Copy, Debug, PartialEq, Eq, Structural)]
pub enum EventPhase {
    Begin,
    BeginEnd,
    End,
    Continued,
}

impl EventPhase {
    /// The label that announces the phase, in Czech for the language code
    /// "cs" and in English for any other.
    pub open spec fn label(self, lang: Seq<char>) -> Seq<char> {
        match self {
            EventPhase::Begin => if is_czech(lang) {
                "Začátek: "@
            } else {
                "Begin: "@
            },
            EventPhase::BeginEnd => if is_czech(lang) {
                "Začátek a konec: "@
            } else {
                "Begin and end: "@
            },
            EventPhase::End => if is_czech(lang) {
                "Konec: "@
            } else {
                "End: "@
            },
            EventPhase::Continued => if is_czech(lang) {
                "Pokračující: "@
            } else {
                "Continued: "@
            },
        }
    }

    /// The label that announces the phase in language `lang`.
    pub fn prefix(self, lang: &str) -> (label: &'static str)
        ensures
            label@ == self.label(lang@),
    {
        let czech = is_czech_code(lang);
        match self {
            EventPhase::Begin => if czech {
                "Začátek: "
            } else {
                "Begin: "
            },
            EventPhase::BeginEnd => if czech {
                "Začátek a konec: "
            } else {
                "Begin and end: "
            },
            EventPhase::End => if czech {
                "Konec: "
            } else {
                "End: "
            },
            EventPhase::Continued => if czech {
                "Pokračující: "
            } else {
                "Continued: "
            },
        }
    }
}

/// The label in front of the summary of a cancelled occurrence.
pub open spec fn cancelled_label(lang: Seq<char>) -> Seq<char> {
    if is_czech(lang) {
        "Zrušeno: "@
    } else {
        "Cancelled: "@
    }
}

/// The summary of an occurrence: the event's name, the cancellation label in
/// front of it if the occurrence is cancelled, and the category names in
/// parentheses behind it.
pub open spec fn summary_text(o: OccurrenceView, lang: Seq<char>) -> Seq<char> {
    (if o.cancelled {
        cancelled_label(lang)
    } else {
        Seq::empty()
    }) + o.event.name + " ("@ + join(o.event.categories, ", "@) + ")"@
}

/// The summary of `occurrence` in language `language`.
pub fn get_summary(occurrence: &Occurrence, language: &str) -> (summary: String)
    ensures
        summary@ == summary_text(occurrence@, language@),
{
    let cancelled_prefix = if occurrence.cancelled {
        if is_czech_code(language) {
            "Zrušeno: "
        } else {
            "Cancelled: "
        }
    } else {
        ""
    };
    proof {
        reveal_strlit("");
        assert(""@ =~= Seq::<char>::empty());
    }
    let names = occurrence.event.category_names();
    let categories = join_strings(&names, ", ");
    let mut summary = String::from_str(cancelled_prefix);
    summary.append(occurrence.event.name.as_str());
    summary.append(" (");
    summary.append(categories.as_str());
    summary.append(")");
    summary
}

/// Which parts a description has beyond those it always has.
#[derive(Clone, Copy, Debug, PartialEq, Eq, Structural)]
pub struct OptionalDescFields {
    pub event_text: bool,
}

impl OptionalDescFields {
    /// None of the optional parts.
    pub fn empty() -> (fields: OptionalDescFields)
        ensures
            !fields.event_text,
    {
        OptionalDescFields { event_text: false }
    }

    /// Whether `self` has every part that `other` has.
    pub fn contains(&self, other: &OptionalDescFields) -> (all: bool)
        ensures
            all == (other.event_text ==> self.event_text),
    {
        self.event_text || !other.event_text
    }
}

impl Default for OptionalDescFields {
    /// The event's free text is part of a description unless it is left out.
    fn default() -> (fields: OptionalDescFields)
        ensures
            fields.event_text,
    {
        OptionalDescFields { event_text: true }
    }
}

/// A performer's name, with the tags in parentheses where there are any.
pub open spec fn performer_text(p: PerformerView) -> Seq<char> {
    if p.tags.len() == 0 {
        p.name
    } else {
        p.name + " ("@ + join(p.tags, ", "@) + ")"@
    }
}

/// The performers of an occurrence on one line.
pub open spec fn performers_line(o: OccurrenceView) -> Seq<char> {
    join(o.performers.map_values(|p: PerformerView| performer_text(p)), ", "@)
}

/// Currency and price on one line; empty unless both are given.
pub open spec fn pricing_line(o: OccurrenceView) -> Seq<char> {
    if o.currency.len() > 0 && o.pricing.len() > 0 {
        o.currency + " "@ + o.pricing
    } else {
        Seq::empty()
    }
}

/// `line` as a list of lines: none if it is blank, else itself.
pub open spec fn kept(line: Seq<char>) -> Seq<Seq<char>> {
    if is_blank(line) {
        Seq::empty()
    } else {
        seq![line]
    }
}

/// The event's free text between two empty lines; nothing if the text is blank.
pub open spec fn text_block(o: OccurrenceView) -> Seq<Seq<char>> {
    if trimmed(o.event.text).len() == 0 {
        Seq::empty()
    } else {
        seq!["\n"@ + trimmed(o.event.text) + "\n"@]
    }
}

/// The lines of a description: performers, pricing and the event's text, each
/// only if it is not blank and the text only if `with_text`, then the URL.
pub open spec fn description_lines(o: OccurrenceView, with_text: bool) -> Seq<Seq<char>> {
    kept(performers_line(o)) + kept(pricing_line(o)) + (if with_text {
        text_block(o)
    } else {
        Seq::empty()
    }) + seq![o.url]
}

/// The description of an occurrence.
pub open spec fn description_text(o: OccurrenceView, with_text: bool) -> Seq<char> {
    join(description_lines(o, with_text), "\n"@)
}

/// The performers of `occurrence` on one line.
fn get_performers_line(occurrence: &Occurrence) -> (line: String)
    ensures
        line@ == performers_line(occurrence@),
{
    let mut names: Vec<String> = Vec::new();
    let mut i: usize = 0;
    let ghost all = performer_views(occurrence.performers@);
    while i < occurrence.performers.len()
        invariant
            i <= occurrence.performers.len(),
            all == performer_views(occurrence.performers@),
            all.len() == occurrence.performers@.len(),
            names@.len() == i,
            texts(names@) == all.take(i as int).map_values(|p: PerformerView| performer_text(p)),
        decreases occurrence.performers.len() - i,
    {
        let performer = &occurrence.performers[i];
        let mut name = performer.name.clone();
        if performer.tags.len() > 0 {
            let tags = join_strings(&performer.tags, ", ");
            name.append(" (");
            name.append(tags.as_str());
            name.append(")");
        }
        assert(name@ == performer_text(all[i as int]));
        let ghost before = texts(names@);
        names.push(name);
        proof {
            let after = all.take(i + 1).map_values(|p: PerformerView| performer_text(p));
            assert forall|j: int| 0 <= j < after.len() implies texts(names@)[j] == after[j] by {
                if j < i {
                    assert(texts(names@)[j] == before[j]);
                }
            }
            assert(texts(names@) =~= after);
        }
        i += 1;
    }
    assert(all.take(i as int) =~= all);
    join_strings(&names, ", ")
}

/// The description of `occurrence`, with the event's free text if
/// `optional_fields` has it.
pub fn get_description(occurrence: &Occurrence, optional_fields: OptionalDescFields) -> (description:
    String)
    ensures
        description@ == description_text(occurrence@, optional_fields.event_text),
{
    let mut lines: Vec<String> = Vec::new();
    let performers = get_performers_line(occurrence);
    if !is_blank_str(performers.as_str()) {
        lines.push(performers);
    }
    assert(texts(lines@) =~= kept(performers_line(occurrence@)));
    let mut pricing = String::new();
    if !occurrence.currency.as_str().is_empty() && !occurrence.pricing.as_str().is_empty() {
        pricing.append(occurrence.currency.as_str());
        pricing.append(" ");
        pricing.append(occurrence.pricing.as_str());
    }
    assert(pricing@ =~= pricing_line(occurrence@));
    if !is_blank_str(pricing.as_str()) {
        lines.push(pricing);
    }
    assert(texts(lines@) =~= kept(performers_line(occurrence@)) + kept(
        pricing_line(occurrence@),
    ));
    if optional_fields.contains(&OptionalDescFields { event_text: true }) {
        let inner = trim(occurrence.event.text.as_str());
        if !inner.is_empty() {
            let mut block = String::from_str("\n");
            block.append(inner);
            block.append("\n");
            lines.push(block);
        }
    }
    lines.push(occurrence.url.clone());
    assert(texts(lines@) =~= description_lines(occurrence@, optional_fields.event_text));
    join_strings(&lines, "\n")
}

/// The identity of the entry of an occurrence.
pub open spec fn identity(o: OccurrenceView) -> Seq<char> {
    "Schedule#"@ + decimal(o.id as nat) + "@goout.net"@
}

/// Name, address, city and country of a venue on one line.
pub open spec fn location_text(v: VenueView) -> Seq<char> {
    v.name + ", "@ + v.address + ", "@ + v.city + ", "@ + v.country
}

/// Latitude and longitude of a venue with a semicolon between them.
pub open spec fn geo_text(v: VenueView) -> Seq<char> {
    v.latitude + ";"@ + v.longitude
}

/// What an entry says of the one occurrence it stands for.
pub open spec fn detail_of(o: OccurrenceView) -> EntryDetailView {
    EntryDetailView {
        url: o.url,
        cancelled: o.cancelled,
        location: location_text(o.venue),
        geo: geo_text(o.venue),
    }
}

/// Where the entry of an occurrence starts: on the day of its start if it
/// takes whole days, else at the second of its start.
pub open spec fn entry_start(o: OccurrenceView) -> EntryTime {
    if o.hour_ignored {
        EntryTime::Date(o.start_day() as i32)
    } else {
        EntryTime::Moment(o.start.utc_seconds)
    }
}

/// Where the entry of an occurrence ends: an occurrence includes its end, an
/// entry does not, so the entry ends on the day after the occurrence's last
/// day if it takes whole days, else one second after its last second.
pub open spec fn entry_end(o: OccurrenceView) -> EntryTime {
    if o.hour_ignored {
        EntryTime::Date((o.end_day() + 1) as i32)
    } else {
        EntryTime::Moment((o.end.utc_seconds + 1) as i64)
    }
}

/// The calendar entry of one occurrence.
pub open spec fn entry_of(o: OccurrenceView, lang: Seq<char>) -> CalendarEntryView {
    CalendarEntryView {
        uid: identity(o),
        created: o.uploaded_on,
        start: entry_start(o),
        end: entry_end(o),
        summary: summary_text(o, lang),
        description: description_text(o, true),
        detail: Some(detail_of(o)),
    }
}

/// What the entry says of `occurrence` itself: address, status, place.
pub fn get_detail(occurrence: &Occurrence) -> (detail: EntryDetail)
    ensures
        detail@ == detail_of(occurrence@),
{
    let venue = &occurrence.venue;
    let mut location = venue.name.clone();
    location.append(", ");
    location.append(venue.address.as_str());
    location.append(", ");
    location.append(venue.city.as_str());
    location.append(", ");
    location.append(venue.country.as_str());
    let mut geo = venue.latitude.clone();
    geo.append(";");
    geo.append(venue.longitude.as_str());
    EntryDetail { url: occurrence.url.clone(), cancelled: occurrence.cancelled, location, geo }
}

/// The identity of the entry of `occurrence`.
pub fn get_identity(occurrence: &Occurrence) -> (uid: String)
    ensures
        uid@ == identity(occurrence@),
{
    let mut uid = String::from_str("Schedule#");
    uid.append(decimal_string(occurrence.id).as_str());
    uid.append("@goout.net");
    uid
}

/// The calendar entry of `occurrence` in language `language`.
pub fn create_ical_event(occurrence: &Occurrence, language: &str) -> (entry: CalendarEntry)
    requires
        occurrence.wf(),
    ensures
        entry@ == entry_of(occurrence@, language@),
        entry@.wf(),
{
    proof {
        occurrence.start.lemma_day_bounds();
        occurrence.end.lemma_day_bounds();
    }
    let (start, end) = if occurrence.hour_ignored {
        (
            EntryTime::Date(occurrence.start.local_day()),
            EntryTime::Date(occurrence.end.local_day() + 1),
        )
    } else {
        (
            EntryTime::Moment(occurrence.start.utc_seconds),
            EntryTime::Moment(occurrence.end.utc_seconds + 1),
        )
    };
    CalendarEntry {
        uid: get_identity(occurrence),
        created: occurrence.uploaded_on,
        start,
        end,
        summary: get_summary(occurrence, language),
        description: get_description(occurrence, OptionalDescFields::default()),
        detail: Some(get_detail(occurrence)),
    }
}

} // verus!
