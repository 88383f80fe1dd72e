//! The message classifier: decodes a payload with the two strategies in a fixed
//! order and decides whether the record is critical.

use vstd::prelude::*;
use crate::delimited::{delimited_event, fields_of, parse_delimited, MIN_FIELDS, SEPARATOR};
use crate::event::{Event, EventView, event_view};
use crate::structured::{is_blank, parse_structured, skip_blanks, structured_event};
use crate::text::{
    all_space, index_of, is_digit, is_space, lemma_index_of_first, lemma_trim_keeps_first, split,
    trim,
};

verus! {

/// The record that a payload denotes: what the delimited encoding reads it to, and
/// where that rejects it, what the structured encoding reads it to.
pub open spec fn decoded(payload: Seq<char>) -> Option<EventView> {
    match delimited_event(payload) {
        Some(event) => Some(event),
        None => structured_event(payload),
    }
}

/// Decodes a payload. The delimited strategy is primary; the structured one is
/// tried on what the first rejects. `None` is the rejection of a payload that
/// matches neither.
pub fn parse(payload: &str) -> (event: Option<Event>)
    ensures
        event_view(event) == decoded(payload@),
{
    match parse_delimited(payload) {
        Some(event) => Some(event),
        None => parse_structured(payload),
    }
}

/// The code of the event that a payload denotes; none where it denotes no event.
pub open spec fn code_of(payload: Seq<char>) -> Option<u16> {
    match decoded(payload) {
        Some(event) => Some(event.code),
        None => None,
    }
}

/// Extracts the code of a payload: the code of the event that the payload decodes
/// to, in whichever encoding, and nothing for a payload that is no event, whatever
/// digits it holds.
pub fn try_extract_code(text: &str) -> (code: Option<u16>)
    ensures
        code == (match decoded(text@) {
            Some(event) => Some(event.code),
            None => None,
        }),
{
    match parse(text) {
        Some(event) => Some(event.code),
        None => None,
    }
}

/// The severity codes that make an event critical. Fixed once built.
#[derive(Clone, Debug)]
pub struct CriticalSet {
    codes: Vec<u16>,
}

impl View for CriticalSet {
    type V = Set<u16>;

    closed spec fn view(&self) -> Set<u16> {
        self.codes@.to_set()
    }
}

impl CriticalSet {
    /// The set of the given codes; repetitions and order do not matter.
    pub fn new(codes: Vec<u16>) -> (set: CriticalSet)
        ensures
            set@ == codes@.to_set(),
    {
        CriticalSet { codes }
    }

    /// Membership of a code.
    pub fn contains(&self, code: u16) -> (r: bool)
        ensures
            r == self@.contains(code),
    {
        let mut i: usize = 0;
        while i < self.codes.len()
            invariant
                i <= self.codes.len(),
                forall|j: int| 0 <= j < i ==> self.codes@[j] != code,
            decreases self.codes.len() - i,
        {
            if self.codes[i] == code {
                return true;
            }
            i += 1;
        }
        false
    }

    /// Whether an event is critical: its code is in the set. Nothing else of the
    /// event is looked at.
    pub fn is_critical(&self, event: &Event) -> (r: bool)
        ensures
            r == self@.contains(event@.code),
    {
        self.contains(event.code)
    }
}

/// A decoded event with the decisions that its code settles.
#[derive(Debug)]
pub struct Route {
    /// The event.
    pub event: Event,
    /// Whether the event is critical, so that consumers of every tier are sent it.
    pub critical: bool,
    /// Whether the payload is handed to the notification tier.
    pub notify: bool,
}

/// What becomes of a payload with the given critical set: nothing where it decodes
/// to no event; else the event, critical exactly when its code is in the set, and
/// handed to the notification tier exactly when critical.
pub open spec fn routed(payload: Seq<char>, critical: Set<u16>) -> Option<(EventView, bool, bool)> {
    match decoded(payload) {
        Some(event) => Some((event, critical.contains(event.code), critical.contains(event.code))),
        None => None,
    }
}

/// The value of an optional route.
pub open spec fn route_view(route: Option<Route>) -> Option<(EventView, bool, bool)> {
    match route {
        Some(r) => Some((r.event@, r.critical, r.notify)),
        None => None,
    }
}

/// Classifies a payload: decodes it and settles, from the code alone, whether it is
/// critical and whether the notification tier gets it. A payload that decodes to no
/// event is dropped: there is nothing to broadcast, to notify or to store.
pub fn classify(payload: &str, critical: &CriticalSet) -> (route: Option<Route>)
    ensures
        route_view(route) == routed(payload@, critical@),
{
    match parse(payload) {
        Some(event) => {
            let is_critical = critical.is_critical(&event);
            Some(Route { event, critical: is_critical, notify: is_critical })
        },
        None => None,
    }
}

/// The notification tier is handed an event exactly when the event is critical, and
/// an event is critical exactly when its code is in the set.
pub proof fn lemma_notify_iff_critical(payload: Seq<char>, critical: Set<u16>)
    ensures
        match routed(payload, critical) {
            Some((event, is_critical, notify)) => decoded(payload) == Some(event) && is_critical
                == critical.contains(event.code) && notify == is_critical,
            None => decoded(payload) is None,
        },
{
}

/// The extracted code settles the route: a payload without a code is dropped, and
/// one with a code is an event with that code, critical and handed to the
/// notification tier exactly where the code is in the critical set.
pub proof fn lemma_code_settles_route(payload: Seq<char>, critical: Set<u16>)
    ensures
        match code_of(payload) {
            Some(code) => routed(payload, critical) matches Some((event, is_critical, notify))
                && event.code == code && is_critical == critical.contains(code) && notify
                == is_critical,
            None => routed(payload, critical) is None,
        },
{
}

/// A payload with fewer than nine fields that is no structured record has no code.
pub proof fn lemma_short_unstructured_has_no_code(payload: Seq<char>)
    requires
        fields_of(payload).len() < MIN_FIELDS,
        structured_event(payload) is None,
    ensures
        code_of(payload) is None,
{
}

/// A payload that neither strategy accepts is dropped, whatever the critical set:
/// there is no event to broadcast, to notify of or to store. A payload with fewer
/// than nine fields that is no structured record is such a payload.
pub proof fn lemma_undecodable_is_dropped(payload: Seq<char>, critical: Set<u16>)
    requires
        delimited_event(payload) is None || fields_of(payload).len() < MIN_FIELDS,
        structured_event(payload) is None,
    ensures
        routed(payload, critical) is None,
{
}

/// Up to where blanks are skipped there are only blanks, and there the text ends
/// or holds something else.
pub proof fn lemma_skip_blanks_stops(s: Seq<char>, i: int)
    requires
        0 <= i <= s.len(),
    ensures
        i <= skip_blanks(s, i) <= s.len(),
        forall|j: int| i <= j < skip_blanks(s, i) ==> is_blank(#[trigger] s[j]),
        skip_blanks(s, i) < s.len() ==> !is_blank(s[skip_blanks(s, i)]),
    decreases s.len() - i,
{
    if i < s.len() && is_blank(s[i]) {
        lemma_skip_blanks_stops(s, i + 1);
    }
}

/// The two encodings share no payload: what decodes as a delimited record is no
/// structured one. So the order in which the strategies are tried decides nothing
/// but the work done.
pub proof fn lemma_encodings_disjoint(payload: Seq<char>)
    ensures
        !(delimited_event(payload) is Some && structured_event(payload) is Some),
{
    if delimited_event(payload) is Some && structured_event(payload) is Some {
        let brace = skip_blanks(payload, 0);
        lemma_skip_blanks_stops(payload, 0);
        assert(0 <= brace < payload.len() && payload[brace] == '{');
        let cut = index_of(payload, SEPARATOR);
        lemma_index_of_first(payload, SEPARATOR);
        let first = if cut < payload.len() {
            payload.take(cut)
        } else {
            payload
        };
        assert(split(payload, SEPARATOR)[0] == first);
        assert(fields_of(payload)[0] == trim(first));
        if cut < payload.len() {
            if cut <= brace {
                assert(is_blank(payload[cut]) || payload[cut] == '{');
            }
        }
        assert(brace < first.len());
        assert(first[brace] == '{');
        assert(all_space(first.take(brace))) by {
            assert forall|j: int| 0 <= j < brace implies is_space(#[trigger] first.take(brace)[j]) by {
                assert(is_blank(payload[j]));
            }
        }
        lemma_trim_keeps_first(first, brace);
        assert(!is_digit(trim(first)[0]));
    }
}

} // verus!
