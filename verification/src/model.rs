//! The records that a listing is made of: performers, venues, events and the
//! occurrences that tie them to a time span.

use crate::keys::id_keys;
use crate::order::in_order;
use crate::order::lemma_in_order_is;
use crate::order::lists_in_order;
use crate::text::texts;
use crate::time::Timestamp;
use std::collections::BTreeMap;
use std::rc::Rc;
use vstd::prelude::*;

verus! {

/// Someone who performs at an event.
#[derive(Debug)]
pub struct Performer {
    pub name: String,
    pub tags: Vec<String>,
}

/// What a `Performer` holds, as plain text.
pub struct PerformerView {
    pub name: Seq<char>,
    pub tags: Seq<Seq<char>>,
}

impl View for Performer {
    type V = PerformerView;

    open spec fn view(&self) -> PerformerView {
        PerformerView { name: self.name@, tags: texts(self.tags@) }
    }
}

/// The place of an event. Latitude and longitude are kept as written.
#[derive(Debug)]
pub struct Venue {
    pub name: String,
    pub address: String,
    pub city: String,
    pub latitude: String,
    pub longitude: String,
    pub country: String,
}

/// What a `Venue` holds, as plain text.
pub struct VenueView {
    pub name: Seq<char>,
    pub address: Seq<char>,
    pub city: Seq<char>,
    pub latitude: Seq<char>,
    pub longitude: Seq<char>,
    pub country: Seq<char>,
}

impl View for Venue {
    type V = VenueView;

    open spec fn view(&self) -> VenueView {
        VenueView {
            name: self.name@,
            address: self.address@,
            city: self.city@,
            latitude: self.latitude@,
            longitude: self.longitude@,
            country: self.country@,
        }
    }
}

/// What is on: a name, a free text and category names keyed by category id.
#[derive(Debug)]
pub struct EventRecord {
    pub name: String,
    pub text: String,
    pub categories: BTreeMap<u64, String>,
}

/// What an `EventRecord` holds, as plain text; the category names stand in the
/// order of their ids.
pub struct EventRecordView {
    pub name: Seq<char>,
    pub text: Seq<char>,
    pub categories: Seq<Seq<char>>,
}

/// The ids under which `categories` holds a name.
pub open spec fn id_set(categories: Map<u64, String>) -> Set<int> {
    Set::new(|id: int| 0 <= id <= u64::MAX && categories.contains_key(id as u64))
}

/// The names in `categories`, in ascending order of their ids.
pub open spec fn names_by_id(categories: Map<u64, String>) -> Seq<Seq<char>> {
    in_order(id_set(categories)).map_values(|id: int| categories[id as u64]@)
}

impl View for EventRecord {
    type V = EventRecordView;

    open spec fn view(&self) -> EventRecordView {
        EventRecordView {
            name: self.name@,
            text: self.text@,
            categories: names_by_id(self.categories@),
        }
    }
}

impl EventRecord {
    /// The category names, in ascending order of their ids.
    pub fn category_names(&self) -> (names: Vec<String>)
        ensures
            texts(names@) == self@.categories,
    {
        let ids = id_keys(&self.categories);
        let ghost int_ids = ids@.map_values(|id: u64| id as int);
        proof {
            assert forall|x: int| int_ids.contains(x) <==> id_set(self.categories@).contains(
                x,
            ) by {
                if int_ids.contains(x) {
                    let i = choose|i: int| 0 <= i < int_ids.len() && int_ids[i] == x;
                    assert(ids@.contains(ids@[i]));
                }
                if id_set(self.categories@).contains(x) {
                    assert(ids@.contains(x as u64));
                    let i = choose|i: int| 0 <= i < ids@.len() && ids@[i] == x as u64;
                    assert(int_ids[i] == x);
                }
            }
            assert(lists_in_order(int_ids, id_set(self.categories@)));
            lemma_in_order_is(int_ids, id_set(self.categories@));
        }
        let mut names: Vec<String> = Vec::new();
        let mut i: usize = 0;
        while i < ids.len()
            invariant
                i <= ids.len(),
                names@.len() == i,
                forall|k: u64| ids@.contains(k) ==> self.categories@.contains_key(k),
                forall|j: int| 0 <= j < i ==> names@[j]@ == self.categories@[ids@[j]]@,
            decreases ids.len() - i,
        {
            assert(ids@.contains(ids@[i as int]));
            let found = self.categories.get(&ids[i]);
            match found {
                Some(name) => {
                    names.push(name.clone());
                },
                None => {
                    assert(false);
                },
            }
            i += 1;
        }
        assert(texts(names@) =~= self@.categories);
        names
    }
}

/// One scheduled instance of an event at a venue. `end` is the last second
/// that belongs to it.
#[derive(Debug)]
pub struct Occurrence {
    pub id: u64,
    pub event: Rc<EventRecord>,
    pub url: String,
    pub cancelled: bool,
    pub start: Timestamp,
    pub end: Timestamp,
    pub uploaded_on: Timestamp,
    /// The occurrence takes whole days; its times of day mean nothing.
    pub hour_ignored: bool,
    /// The occurrence may run over many days.
    pub is_long_term: bool,
    pub pricing: String,
    pub currency: String,
    pub venue: Rc<Venue>,
    pub performers: Vec<Rc<Performer>>,
}

/// What an `Occurrence` holds, with the records it refers to written out.
pub struct OccurrenceView {
    pub id: u64,
    pub event: EventRecordView,
    pub url: Seq<char>,
    pub cancelled: bool,
    pub start: Timestamp,
    pub end: Timestamp,
    pub uploaded_on: Timestamp,
    pub hour_ignored: bool,
    pub is_long_term: bool,
    pub pricing: Seq<char>,
    pub currency: Seq<char>,
    pub venue: VenueView,
    pub performers: Seq<PerformerView>,
}

impl OccurrenceView {
    /// The three instants are valid and the occurrence does not end before
    /// it starts, neither by the clock nor by the calendar.
    pub open spec fn wf(self) -> bool {
        &&& self.start.wf()
        &&& self.end.wf()
        &&& self.uploaded_on.wf()
        &&& self.start.utc_seconds <= self.end.utc_seconds
        &&& self.start.day() <= self.end.day()
    }

    /// The number of the local day on which the occurrence starts.
    pub open spec fn start_day(self) -> int {
        self.start.day()
    }

    /// The number of the local day on which the occurrence ends.
    pub open spec fn end_day(self) -> int {
        self.end.day()
    }

    /// `self` with another id, span and event name.
    pub open spec fn derived(
        self,
        id: u64,
        start: Timestamp,
        end: Timestamp,
        name: Seq<char>,
    ) -> OccurrenceView {
        OccurrenceView {
            id,
            start,
            end,
            event: EventRecordView { name, text: self.event.text, categories: self.event.categories },
            url: self.url,
            cancelled: self.cancelled,
            uploaded_on: self.uploaded_on,
            hour_ignored: self.hour_ignored,
            is_long_term: self.is_long_term,
            pricing: self.pricing,
            currency: self.currency,
            venue: self.venue,
            performers: self.performers,
        }
    }
}

/// The views of a sequence of shared performers.
pub open spec fn performer_views(performers: Seq<Rc<Performer>>) -> Seq<PerformerView> {
    performers.map_values(|p: Rc<Performer>| p@)
}

impl View for Occurrence {
    type V = OccurrenceView;

    open spec fn view(&self) -> OccurrenceView {
        OccurrenceView {
            id: self.id,
            event: self.event@,
            url: self.url@,
            cancelled: self.cancelled,
            start: self.start,
            end: self.end,
            uploaded_on: self.uploaded_on,
            hour_ignored: self.hour_ignored,
            is_long_term: self.is_long_term,
            pricing: self.pricing@,
            currency: self.currency@,
            venue: self.venue@,
            performers: performer_views(self.performers@),
        }
    }
}

/// The views of a sequence of occurrences.
pub open spec fn occurrence_views(occurrences: Seq<Occurrence>) -> Seq<OccurrenceView> {
    occurrences.map_values(|o: Occurrence| o@)
}

/// Every occurrence of `occurrences` is well formed.
pub open spec fn all_wf(occurrences: Seq<OccurrenceView>) -> bool {
    forall|i: int| 0 <= i < occurrences.len() ==> (#[trigger] occurrences[i]).wf()
}

impl Occurrence {
    /// The occurrence's instants are valid and its end is not before its
    /// start, neither by the clock nor by the calendar.
    pub open spec fn wf(&self) -> bool {
        self@.wf()
    }

    /// Whether the occurrence is well formed.
    pub fn is_valid(&self) -> (valid: bool)
        ensures
            valid == self.wf(),
    {
        self.start.is_valid() && self.end.is_valid() && self.uploaded_on.is_valid()
            && self.start.utc_seconds <= self.end.utc_seconds && self.start.local_day()
            <= self.end.local_day()
    }

    /// A new occurrence that shares venue and performers with `self` and
    /// differs from it in id, span and event name only. `self` and the event it
    /// refers to stay as they are.
    pub fn derive(&self, id: u64, start: Timestamp, end: Timestamp, name: String) -> (derived:
        Occurrence)
        ensures
            derived@ == self@.derived(id, start, end, name@),
    {
        let event = EventRecord {
            name,
            text: self.event.text.clone(),
            categories: self.event.categories.clone(),
        };
        let mut performers: Vec<Rc<Performer>> = Vec::new();
        let mut i: usize = 0;
        while i < self.performers.len()
            invariant
                i <= self.performers.len(),
                performers@ == self.performers@.take(i as int),
            decreases self.performers.len() - i,
        {
            performers.push(Rc::clone(&self.performers[i]));
            assert(performers@ =~= self.performers@.take(i + 1));
            i += 1;
        }
        assert(performers@ =~= self.performers@);
        Occurrence {
            id,
            event: Rc::new(event),
            url: self.url.clone(),
            cancelled: self.cancelled,
            start,
            end,
            uploaded_on: self.uploaded_on,
            hour_ignored: self.hour_ignored,
            is_long_term: self.is_long_term,
            pricing: self.pricing.clone(),
            currency: self.currency.clone(),
            venue: Rc::clone(&self.venue),
            performers,
        }
    }
}

} // verus!
