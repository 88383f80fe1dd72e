//! The delimited positional encoding: at least nine `|`-separated fields.

use vstd::prelude::*;
use crate::event::{Event, EventView, event_view};
use crate::stamp::{naive_utc_millis, parse_naive_utc_millis};
use crate::text::{
    decimal_u16, join, parse_u16, split, split_chars, string_of, to_chars, trim, trim_bounds,
    copy_range, views,
};

verus! {

/// The character that separates fields.
pub const SEPARATOR: char = '|';

/// The least number of fields in a record.
pub const MIN_FIELDS: usize = 9;

/// Position of the code among the fields.
pub const CODE_FIELD: usize = 0;

/// Position of the timestamp among the fields.
pub const TIMESTAMP_FIELD: usize = 2;

/// Position of the service name among the fields.
pub const SERVICE_FIELD: usize = 3;

/// Position of the first field of the message.
pub const MESSAGE_FIELD: usize = 8;

/// The strftime-style layout of the timestamp field: `YYYY-MM-DD HH:MM:SS,fff`.
pub open spec fn timestamp_format() -> Seq<char> {
    "%Y-%m-%d %H:%M:%S,%3f"@
}

/// The fields of a payload: its pieces between separators, each trimmed.
pub open spec fn fields_of(payload: Seq<char>) -> Seq<Seq<char>> {
    split(payload, SEPARATOR).map_values(|piece: Seq<char>| trim(piece))
}

/// The record that a list of trimmed fields and the reading of its timestamp field
/// give: none with fewer than nine fields, with a first field that is no `u16` in
/// decimal, or with an unreadable timestamp; else the code from field 0, the service
/// from field 3, and as message the fields from the ninth on, joined by the
/// separator.
pub open spec fn event_of_fields(fields: Seq<Seq<char>>, timestamp: Option<i64>) -> Option<
    EventView,
> {
    if fields.len() < MIN_FIELDS {
        None
    } else {
        match (decimal_u16(fields[CODE_FIELD as int]), timestamp) {
            (Some(code), Some(millis)) => Some(
                EventView {
                    code,
                    service: fields[SERVICE_FIELD as int],
                    timestamp: millis,
                    message: join(fields.skip(MESSAGE_FIELD as int), SEPARATOR),
                },
            ),
            _ => None,
        }
    }
}

/// The reading of the timestamp field of `fields`, where there is one.
pub open spec fn timestamp_of_fields(fields: Seq<Seq<char>>) -> Option<i64> {
    if fields.len() > TIMESTAMP_FIELD {
        naive_utc_millis(fields[TIMESTAMP_FIELD as int], timestamp_format())
    } else {
        None
    }
}

/// The record that a payload denotes in the delimited encoding.
pub open spec fn delimited_event(payload: Seq<char>) -> Option<EventView> {
    let fields = fields_of(payload);
    event_of_fields(fields, timestamp_of_fields(fields))
}

/// Splits a payload into its trimmed fields.
pub fn split_fields(payload: &Vec<char>) -> (fields: Vec<Vec<char>>)
    ensures
        views(fields@) == fields_of(payload@),
{
    let pieces = split_chars(payload, SEPARATOR);
    let mut fields: Vec<Vec<char>> = Vec::new();
    let mut i: usize = 0;
    while i < pieces.len()
        invariant
            i <= pieces.len(),
            views(pieces@) == split(payload@, SEPARATOR),
            fields.len() == i,
            forall|j: int| 0 <= j < i ==> (#[trigger] fields@[j])@ == trim(pieces@[j]@),
        decreases pieces.len() - i,
    {
        let piece = &pieces[i];
        let (from, to) = trim_bounds(piece, 0, piece.len());
        assert(piece@.subrange(0, piece.len() as int) =~= piece@);
        let field = copy_range(piece, from, to);
        fields.push(field);
        i += 1;
    }
    assert(views(fields@) =~= fields_of(payload@));
    fields
}

/// Joins the fields from `from` on with the separator.
pub(crate) fn join_fields(fields: &Vec<Vec<char>>, from: usize) -> (text: Vec<char>)
    requires
        from <= fields.len(),
    ensures
        text@ == join(views(fields@).skip(from as int), SEPARATOR),
{
    let mut text: Vec<char> = Vec::new();
    let mut i: usize = from;
    let ghost tail = views(fields@).skip(from as int);
    assert(tail.take(0) =~= Seq::<Seq<char>>::empty());
    while i < fields.len()
        invariant
            from <= i <= fields.len(),
            tail == views(fields@).skip(from as int),
            text@ == join(tail.take(i - from), SEPARATOR),
        decreases fields.len() - i,
    {
        let ghost before = text@;
        if i > from {
            text.push(SEPARATOR);
        }
        let field = &fields[i];
        let mut k: usize = 0;
        let ghost base = text@;
        while k < field.len()
            invariant
                k <= field.len(),
                text@ == base + field@.take(k as int),
            decreases field.len() - k,
        {
            text.push(field[k]);
            k += 1;
            assert(text@ =~= base + field@.take(k as int));
        }
        proof {
            assert(field@.take(k as int) =~= field@);
            let now = tail.take(i - from + 1);
            assert(now.drop_last() =~= tail.take(i - from));
            assert(now.last() == field@);
            if i == from {
                assert(text@ =~= field@);
            } else {
                assert(text@ =~= before.push(SEPARATOR) + field@);
            }
        }
        i += 1;
    }
    assert(tail.take(i - from) =~= tail);
    text
}

/// Builds the record from trimmed fields and the reading of the timestamp field.
pub fn assemble(fields: &Vec<Vec<char>>, timestamp: Option<i64>) -> (event: Option<Event>)
    ensures
        event_view(event) == event_of_fields(views(fields@), timestamp),
{
    if fields.len() < MIN_FIELDS {
        return None;
    }
    let code = match parse_u16(&fields[CODE_FIELD]) {
        Some(code) => code,
        None => {
            return None;
        },
    };
    let millis = match timestamp {
        Some(millis) => millis,
        None => {
            return None;
        },
    };
    let service = string_of(&fields[SERVICE_FIELD]);
    let message = string_of(&join_fields(fields, MESSAGE_FIELD));
    Some(Event { code, service, timestamp: millis, message })
}

/// Decodes a payload in the delimited encoding.
pub fn parse_delimited(payload: &str) -> (event: Option<Event>)
    ensures
        event_view(event) == delimited_event(payload@),
{
    let chars = to_chars(payload);
    let fields = split_fields(&chars);
    let timestamp = if fields.len() > TIMESTAMP_FIELD {
        let field = string_of(&fields[TIMESTAMP_FIELD]);
        parse_naive_utc_millis(field.as_str(), "%Y-%m-%d %H:%M:%S,%3f")
    } else {
        None
    };
    assemble(&fields, timestamp)
}

/// A payload with fewer than nine fields is no record in the delimited encoding.
pub proof fn lemma_few_fields_rejected(payload: Seq<char>)
    requires
        fields_of(payload).len() < MIN_FIELDS,
    ensures
        delimited_event(payload) is None,
{
}

} // verus!
