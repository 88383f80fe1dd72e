//! The structured encoding: one JSON object that carries the four fields of a
//! record. Values are strings and integers; anything else in a value's place makes
//! the payload no record.

use vstd::prelude::*;
use crate::event::{Event, EventView, event_view};
use crate::text::{
    bounded_number, is_digit, is_digit_char, parse_digits, same_chars, string_of, to_chars,
};

verus! {

/// The four characters that may stand between tokens.
pub open spec fn is_blank(c: char) -> bool {
    c == ' ' || c == '\t' || c == '\n' || c == '\r'
}

/// The first position at or after `i` that holds no blank.
pub open spec fn skip_blanks(s: Seq<char>, i: int) -> int
    decreases s.len() - i,
{
    if 0 <= i < s.len() && is_blank(s[i]) {
        skip_blanks(s, i + 1)
    } else {
        i
    }
}

/// Whether `code` is a Unicode scalar value: a code point that is no surrogate.
pub open spec fn is_scalar(code: u32) -> bool {
    code <= 0xD7FF || 0xE000 <= code <= 0x10FFFF
}

/// The value of a hexadecimal digit, in either case.
pub open spec fn hex_value(c: char) -> Option<u32> {
    if '0' <= c <= '9' {
        Some((c as u32 - '0' as u32) as u32)
    } else if 'a' <= c <= 'f' {
        Some((c as u32 - 'a' as u32 + 10) as u32)
    } else if 'A' <= c <= 'F' {
        Some((c as u32 - 'A' as u32 + 10) as u32)
    } else {
        None
    }
}

/// The number that the four hexadecimal digits at `i` write.
pub open spec fn hex4(s: Seq<char>, i: int) -> Option<u32> {
    if 0 <= i && i + 4 <= s.len() {
        match (hex_value(s[i]), hex_value(s[i + 1]), hex_value(s[i + 2]), hex_value(s[i + 3])) {
            (Some(a), Some(b), Some(c), Some(d)) => Some((((a * 16 + b) * 16 + c) * 16 + d) as u32),
            _ => None,
        }
    } else {
        None
    }
}

/// The code point that a UTF-16 surrogate pair stands for.
pub open spec fn pair_value(high: u32, low: u32) -> u32 {
    (0x10000 + (high - 0xD800) * 0x400 + (low - 0xDC00)) as u32
}

/// The character that the escape at `i`, the position after a backslash, stands for,
/// and the position after the escape. The escapes are the eight of one letter and
/// `uXXXX`; a `uXXXX` that names a high surrogate must be followed by a `\uXXXX`
/// that names a low one, and the two make one character.
pub open spec fn escape_at(s: Seq<char>, i: int) -> Option<(char, int)> {
    if !(0 <= i < s.len()) {
        None
    } else if s[i] == '"' || s[i] == '\\' || s[i] == '/' {
        Some((s[i], i + 1))
    } else if s[i] == 'b' {
        Some(('\x08', i + 1))
    } else if s[i] == 'f' {
        Some(('\x0C', i + 1))
    } else if s[i] == 'n' {
        Some(('\n', i + 1))
    } else if s[i] == 'r' {
        Some(('\r', i + 1))
    } else if s[i] == 't' {
        Some(('\t', i + 1))
    } else if s[i] == 'u' {
        match hex4(s, i + 1) {
            Some(unit) => if is_scalar(unit) {
                Some((unit as char, i + 5))
            } else if 0xD800 <= unit <= 0xDBFF && i + 7 <= s.len() && s[i + 5] == '\\' && s[i
                + 6] == 'u' {
                match hex4(s, i + 7) {
                    Some(low) => if 0xDC00 <= low <= 0xDFFF {
                        Some((pair_value(unit, low) as char, i + 11))
                    } else {
                        None
                    },
                    None => None,
                }
            } else {
                None
            },
            None => None,
        }
    } else {
        None
    }
}

/// A text read so far, put in front of what the rest of a literal reads to.
pub open spec fn prefixed(prefix: Seq<char>, rest: Option<(Seq<char>, int)>) -> Option<
    (Seq<char>, int),
> {
    match rest {
        Some((text, end)) => Some((prefix + text, end)),
        None => None,
    }
}

/// The text of the string literal whose opening quote stands just before `i`, and
/// the position after its closing quote. Control characters below U+0020 may not
/// stand in a literal unescaped.
pub open spec fn text_from(s: Seq<char>, i: int) -> Option<(Seq<char>, int)>
    decreases s.len() - i,
{
    if !(0 <= i < s.len()) {
        None
    } else if s[i] == '"' {
        Some((Seq::empty(), i + 1))
    } else if s[i] == '\\' {
        match escape_at(s, i + 1) {
            Some((c, next)) => if i < next <= s.len() {
                prefixed(seq![c], text_from(s, next))
            } else {
                None
            },
            None => None,
        }
    } else if (s[i] as u32) < 0x20 {
        None
    } else {
        prefixed(seq![s[i]], text_from(s, i + 1))
    }
}

/// The string literal that starts at `i`.
pub open spec fn string_at(s: Seq<char>, i: int) -> Option<(Seq<char>, int)> {
    if 0 <= i < s.len() && s[i] == '"' {
        text_from(s, i + 1)
    } else {
        None
    }
}

/// The first position at or after `i` that holds no ASCII digit.
pub open spec fn digits_end(s: Seq<char>, i: int) -> int
    decreases s.len() - i,
{
    if 0 <= i < s.len() && is_digit(s[i]) {
        digits_end(s, i + 1)
    } else {
        i
    }
}

/// The integer that starts at `i`, and the position after it: an optional `-`, then
/// digits without a needless leading zero, the whole within the range of `i64`.
pub open spec fn number_at(s: Seq<char>, i: int) -> Option<(i64, int)> {
    let negative = 0 <= i < s.len() && s[i] == '-';
    let start = if negative {
        i + 1
    } else {
        i
    };
    let end = digits_end(s, start);
    if !(0 <= start < end <= s.len()) {
        None
    } else if end - start > 1 && s[start] == '0' {
        None
    } else if negative {
        match bounded_number(s.subrange(start, end), 0x8000_0000_0000_0000) {
            Some(magnitude) => Some(((0 - magnitude) as i64, end)),
            None => None,
        }
    } else {
        match bounded_number(s.subrange(start, end), 0x7FFF_FFFF_FFFF_FFFF) {
            Some(magnitude) => Some((magnitude as i64, end)),
            None => None,
        }
    }
}

/// Converts a code point to the character it names with `char::from_u32`, which
/// gives a character exactly for the scalar values, and then the one with that code.
#[verifier::external_body]
pub(crate) fn char_of(code: u32) -> (c: Option<char>)
    ensures
        is_scalar(code) ==> c == Some(code as char),
        !is_scalar(code) ==> c is None,
{
    char::from_u32(code)
}

/// Skips blanks from `i` on.
pub fn pass_blanks(chars: &Vec<char>, i: usize) -> (next: usize)
    ensures
        next == skip_blanks(chars@, i as int),
        i <= next,
        i <= chars.len() ==> next <= chars.len(),
{
    let mut k: usize = i;
    while k < chars.len() && (chars[k] == ' ' || chars[k] == '\t' || chars[k] == '\n' || chars[k]
        == '\r')
        invariant
            i <= k,
            i <= chars.len() ==> k <= chars.len(),
            skip_blanks(chars@, i as int) == skip_blanks(chars@, k as int),
        decreases chars.len() - k,
    {
        k += 1;
    }
    k
}

/// Reads one hexadecimal digit.
pub fn read_hex(c: char) -> (value: Option<u32>)
    ensures
        value == hex_value(c),
        value matches Some(v) ==> v < 16,
{
    let n: u32 = c as u32;
    if 0x30 <= n && n <= 0x39 {
        Some(n - 0x30)
    } else if 0x61 <= n && n <= 0x66 {
        Some(n - 0x61 + 10)
    } else if 0x41 <= n && n <= 0x46 {
        Some(n - 0x41 + 10)
    } else {
        None
    }
}

/// Reads the four hexadecimal digits at `i`.
pub fn read_hex4(chars: &Vec<char>, i: usize) -> (value: Option<u32>)
    ensures
        value == hex4(chars@, i as int),
        value matches Some(v) ==> v <= 0xFFFF,
{
    if i > chars.len() || chars.len() - i < 4 {
        return None;
    }
    match (read_hex(chars[i]), read_hex(chars[i + 1]), read_hex(chars[i + 2]), read_hex(
        chars[i + 3],
    )) {
        (Some(a), Some(b), Some(c), Some(d)) => Some(((a * 16 + b) * 16 + c) * 16 + d),
        _ => None,
    }
}

/// What a reader of a character returned, as a value.
pub open spec fn char_read(r: Option<(char, usize)>) -> Option<(char, int)> {
    match r {
        Some((c, next)) => Some((c, next as int)),
        None => None,
    }
}

/// Reads the escape that follows a backslash.
pub fn read_escape(chars: &Vec<char>, i: usize) -> (r: Option<(char, usize)>)
    ensures
        char_read(r) == escape_at(chars@, i as int),
        r matches Some((_, next)) ==> i < next <= chars.len(),
{
    if i >= chars.len() {
        return None;
    }
    let c = chars[i];
    if c == '"' || c == '\\' || c == '/' {
        Some((c, i + 1))
    } else if c == 'b' {
        Some(('\x08', i + 1))
    } else if c == 'f' {
        Some(('\x0C', i + 1))
    } else if c == 'n' {
        Some(('\n', i + 1))
    } else if c == 'r' {
        Some(('\r', i + 1))
    } else if c == 't' {
        Some(('\t', i + 1))
    } else if c == 'u' {
        let unit = match read_hex4(chars, i + 1) {
            Some(unit) => unit,
            None => {
                return None;
            },
        };
        if unit < 0xD800 || unit > 0xDFFF {
            match char_of(unit) {
                Some(ch) => Some((ch, i + 5)),
                None => None,
            }
        } else if unit <= 0xDBFF && chars.len() - i >= 7 && chars[i + 5] == '\\' && chars[i + 6]
            == 'u' {
            let low = match read_hex4(chars, i + 7) {
                Some(low) => low,
                None => {
                    return None;
                },
            };
            if 0xDC00 <= low && low <= 0xDFFF {
                let code: u32 = 0x10000 + (unit - 0xD800) * 0x400 + (low - 0xDC00);
                match char_of(code) {
                    Some(ch) => Some((ch, i + 11)),
                    None => None,
                }
            } else {
                None
            }
        } else {
            None
        }
    } else {
        None
    }
}

/// What a reader of a text returned, as a value.
pub open spec fn text_read(r: Option<(Vec<char>, usize)>) -> Option<(Seq<char>, int)> {
    match r {
        Some((text, next)) => Some((text@, next as int)),
        None => None,
    }
}

/// Reads a string literal from the position after its opening quote.
pub fn read_text(chars: &Vec<char>, start: usize) -> (r: Option<(Vec<char>, usize)>)
    ensures
        text_read(r) == text_from(chars@, start as int),
        r matches Some((_, next)) ==> start < next <= chars.len(),
{
    if start >= chars.len() {
        return None;
    }
    let mut out: Vec<char> = Vec::new();
    let mut i: usize = start;
    proof {
        let whole = text_from(chars@, start as int);
        if let Some((t, e)) = whole {
            assert(out@ + t =~= t);
        }
    }
    loop
        invariant
            start <= i <= chars.len(),
            text_from(chars@, start as int) == prefixed(out@, text_from(chars@, i as int)),
        decreases chars.len() - i,
    {
        if i >= chars.len() {
            return None;
        }
        let c = chars[i];
        let ghost before = out@;
        if c == '"' {
            assert(before + Seq::<char>::empty() =~= before);
            return Some((out, i + 1));
        } else if c == '\\' {
            match read_escape(chars, i + 1) {
                Some((ch, next)) => {
                    out.push(ch);
                    proof {
                        if let Some((t, e)) = text_from(chars@, next as int) {
                            assert(before + (seq![ch] + t) =~= out@ + t);
                        }
                    }
                    i = next;
                },
                None => {
                    return None;
                },
            }
        } else if (c as u32) < 0x20 {
            return None;
        } else {
            out.push(c);
            proof {
                if let Some((t, e)) = text_from(chars@, i + 1) {
                    assert(before + (seq![c] + t) =~= out@ + t);
                }
            }
            i += 1;
        }
    }
}

/// Reads the string literal that starts at `i`.
pub fn read_string(chars: &Vec<char>, i: usize) -> (r: Option<(Vec<char>, usize)>)
    ensures
        text_read(r) == string_at(chars@, i as int),
        r matches Some((_, next)) ==> i < next <= chars.len(),
{
    if i < chars.len() && chars[i] == '"' {
        read_text(chars, i + 1)
    } else {
        None
    }
}

/// What a reader of an integer returned, as a value.
pub open spec fn number_read(r: Option<(i64, usize)>) -> Option<(i64, int)> {
    match r {
        Some((n, next)) => Some((n, next as int)),
        None => None,
    }
}

/// Reads the integer that starts at `i`.
pub fn read_number(chars: &Vec<char>, i: usize) -> (r: Option<(i64, usize)>)
    ensures
        number_read(r) == number_at(chars@, i as int),
        r matches Some((_, next)) ==> i < next <= chars.len(),
{
    if i >= chars.len() {
        return None;
    }
    let negative = i < chars.len() && chars[i] == '-';
    let start: usize = if negative {
        i + 1
    } else {
        i
    };
    let mut end: usize = start;
    while end < chars.len() && is_digit_char(chars[end])
        invariant
            start <= end <= chars.len(),
            digits_end(chars@, start as int) == digits_end(chars@, end as int),
        decreases chars.len() - end,
    {
        end += 1;
    }
    if end == start {
        return None;
    }
    if end - start > 1 && chars[start] == '0' {
        return None;
    }
    if negative {
        match parse_digits(chars, start, end, 0x8000_0000_0000_0000) {
            Some(magnitude) => {
                if magnitude == 0x8000_0000_0000_0000 {
                    Some((i64::MIN, end))
                } else {
                    Some((0 - (magnitude as i64), end))
                }
            },
            None => None,
        }
    } else {
        match parse_digits(chars, start, end, 0x7FFF_FFFF_FFFF_FFFF) {
            Some(magnitude) => Some((magnitude as i64, end)),
            None => None,
        }
    }
}

/// A value of a member: an integer or a text.
#[derive(Clone, Debug, PartialEq, Eq)]
pub enum Value {
    Number(i64),
    Text(Vec<char>),
}

/// The mathematical value of a [`Value`].
pub enum ValueView {
    Number(i64),
    Text(Seq<char>),
}

impl View for Value {
    type V = ValueView;

    open spec fn view(&self) -> ValueView {
        match self {
            Value::Number(n) => ValueView::Number(*n),
            Value::Text(t) => ValueView::Text(t@),
        }
    }
}

/// One `key: value` pair of an object.
#[derive(Clone, Debug, PartialEq, Eq)]
pub struct Member {
    pub key: Vec<char>,
    pub value: Value,
}

/// The mathematical value of a [`Member`].
pub struct MemberView {
    pub key: Seq<char>,
    pub value: ValueView,
}

impl View for Member {
    type V = MemberView;

    open spec fn view(&self) -> MemberView {
        MemberView { key: self.key@, value: self.value@ }
    }
}

/// The values of a list of members.
pub open spec fn member_views(members: Seq<Member>) -> Seq<MemberView> {
    members.map_values(|m: Member| m@)
}

/// The value that starts at `i`: a string literal or an integer.
pub open spec fn value_at(s: Seq<char>, i: int) -> Option<(ValueView, int)> {
    if 0 <= i < s.len() && s[i] == '"' {
        match string_at(s, i) {
            Some((text, end)) => Some((ValueView::Text(text), end)),
            None => None,
        }
    } else {
        match number_at(s, i) {
            Some((n, end)) => Some((ValueView::Number(n), end)),
            None => None,
        }
    }
}

/// The member that starts at `i`: a string literal as key, a colon, a value, with
/// blanks allowed around the colon.
pub open spec fn member_at(s: Seq<char>, i: int) -> Option<(MemberView, int)> {
    match string_at(s, i) {
        Some((key, after_key)) => {
            let colon = skip_blanks(s, after_key);
            if 0 <= colon < s.len() && s[colon] == ':' {
                match value_at(s, skip_blanks(s, colon + 1)) {
                    Some((value, end)) => Some((MemberView { key, value }, end)),
                    None => None,
                }
            } else {
                None
            }
        },
        None => None,
    }
}

/// Members read so far, put in front of what the rest of an object reads to.
pub open spec fn prefixed_members(
    prefix: Seq<MemberView>,
    rest: Option<(Seq<MemberView>, int)>,
) -> Option<(Seq<MemberView>, int)> {
    match rest {
        Some((members, end)) => Some((prefix + members, end)),
        None => None,
    }
}

/// The members of an object from the one that starts at `i` up to the closing brace,
/// separated by commas, and the position after the brace.
pub open spec fn members_from(s: Seq<char>, i: int) -> Option<(Seq<MemberView>, int)>
    decreases s.len() - i,
{
    match member_at(s, i) {
        Some((member, after)) => {
            let mark = skip_blanks(s, after);
            if !(0 <= mark < s.len()) {
                None
            } else if s[mark] == '}' {
                Some((seq![member], mark + 1))
            } else if s[mark] == ',' {
                let next = skip_blanks(s, mark + 1);
                if i < next <= s.len() {
                    prefixed_members(seq![member], members_from(s, next))
                } else {
                    None
                }
            } else {
                None
            }
        },
        None => None,
    }
}

/// The members of the object whose opening brace stands at `i`, and the position
/// after its closing brace.
pub open spec fn object_at(s: Seq<char>, i: int) -> Option<(Seq<MemberView>, int)> {
    if 0 <= i < s.len() && s[i] == '{' {
        let first = skip_blanks(s, i + 1);
        if 0 <= first < s.len() && s[first] == '}' {
            Some((Seq::empty(), first + 1))
        } else {
            members_from(s, first)
        }
    } else {
        None
    }
}

/// The members of a payload that is one object with nothing but blanks around it.
pub open spec fn record_of(s: Seq<char>) -> Option<Seq<MemberView>> {
    match object_at(s, skip_blanks(s, 0)) {
        Some((members, end)) => if skip_blanks(s, end) == s.len() {
            Some(members)
        } else {
            None
        },
        None => None,
    }
}

/// The value of the first member with the given key.
pub open spec fn lookup(members: Seq<MemberView>, key: Seq<char>) -> Option<ValueView>
    decreases members.len(),
{
    if members.len() == 0 {
        None
    } else if members[0].key == key {
        Some(members[0].value)
    } else {
        lookup(members.skip(1), key)
    }
}

/// The integer under `key`, where the first member with that key holds one.
pub open spec fn number_under(members: Seq<MemberView>, key: Seq<char>) -> Option<i64> {
    match lookup(members, key) {
        Some(ValueView::Number(n)) => Some(n),
        _ => None,
    }
}

/// The text under `key`, where the first member with that key holds one.
pub open spec fn text_under(members: Seq<MemberView>, key: Seq<char>) -> Option<Seq<char>> {
    match lookup(members, key) {
        Some(ValueView::Text(t)) => Some(t),
        _ => None,
    }
}

/// The record that a list of members gives: there are exactly four, and among them
/// `code` holds an integer from 0 to 65535, `timestamp` an integer, and `service`
/// and `message` a text each. With four members that name four different keys, none
/// is named twice and no other key occurs.
pub open spec fn event_of_members(members: Seq<MemberView>) -> Option<EventView> {
    if members.len() != 4 {
        None
    } else {
        match (
            number_under(members, "code"@),
            text_under(members, "service"@),
            number_under(members, "timestamp"@),
            text_under(members, "message"@),
        ) {
            (Some(code), Some(service), Some(timestamp), Some(message)) => if 0 <= code <= 0xFFFF {
                Some(EventView { code: code as u16, service, timestamp, message })
            } else {
                None
            },
            _ => None,
        }
    }
}

/// The record that a payload denotes in the structured encoding.
pub open spec fn structured_event(payload: Seq<char>) -> Option<EventView> {
    match record_of(payload) {
        Some(members) => event_of_members(members),
        None => None,
    }
}

/// What a reader of a value returned, as a value.
pub open spec fn value_read(r: Option<(Value, usize)>) -> Option<(ValueView, int)> {
    match r {
        Some((value, next)) => Some((value@, next as int)),
        None => None,
    }
}

/// Reads the value that starts at `i`.
pub fn read_value(chars: &Vec<char>, i: usize) -> (r: Option<(Value, usize)>)
    ensures
        value_read(r) == value_at(chars@, i as int),
        r matches Some((_, next)) ==> i < next <= chars.len(),
{
    if i < chars.len() && chars[i] == '"' {
        match read_string(chars, i) {
            Some((text, end)) => Some((Value::Text(text), end)),
            None => None,
        }
    } else {
        match read_number(chars, i) {
            Some((n, end)) => Some((Value::Number(n), end)),
            None => None,
        }
    }
}

/// What a reader of a member returned, as a value.
pub open spec fn member_read(r: Option<(Member, usize)>) -> Option<(MemberView, int)> {
    match r {
        Some((member, next)) => Some((member@, next as int)),
        None => None,
    }
}

/// Reads the member that starts at `i`.
pub fn read_member(chars: &Vec<char>, i: usize) -> (r: Option<(Member, usize)>)
    ensures
        member_read(r) == member_at(chars@, i as int),
        r matches Some((_, next)) ==> i < next <= chars.len(),
{
    let (key, after_key) = match read_string(chars, i) {
        Some(read) => read,
        None => {
            return None;
        },
    };
    let colon = pass_blanks(chars, after_key);
    if colon >= chars.len() || chars[colon] != ':' {
        return None;
    }
    let at = pass_blanks(chars, colon + 1);
    match read_value(chars, at) {
        Some((value, end)) => Some((Member { key, value }, end)),
        None => None,
    }
}

/// What a reader of members returned, as a value.
pub open spec fn members_read(r: Option<(Vec<Member>, usize)>) -> Option<(Seq<MemberView>, int)> {
    match r {
        Some((members, next)) => Some((member_views(members@), next as int)),
        None => None,
    }
}

/// Reads the members of an object from the one at `start` up to the closing brace.
pub fn read_members(chars: &Vec<char>, start: usize) -> (r: Option<(Vec<Member>, usize)>)
    ensures
        members_read(r) == members_from(chars@, start as int),
        r matches Some((_, next)) ==> start < next <= chars.len(),
{
    if start >= chars.len() {
        return None;
    }
    let mut out: Vec<Member> = Vec::new();
    let mut i: usize = start;
    proof {
        if let Some((t, e)) = members_from(chars@, start as int) {
            assert(member_views(out@) + t =~= t);
        }
    }
    loop
        invariant
            start <= i <= chars.len(),
            members_from(chars@, start as int) == prefixed_members(
                member_views(out@),
                members_from(chars@, i as int),
            ),
        decreases chars.len() - i,
    {
        let (member, after) = match read_member(chars, i) {
            Some(read) => read,
            None => {
                return None;
            },
        };
        let mark = pass_blanks(chars, after);
        if mark >= chars.len() {
            return None;
        }
        let ghost before = member_views(out@);
        if chars[mark] == '}' {
            out.push(member);
            assert(member_views(out@) =~= before + seq![member@]);
            return Some((out, mark + 1));
        } else if chars[mark] == ',' {
            let next = pass_blanks(chars, mark + 1);
            out.push(member);
            proof {
                assert(member_views(out@) =~= before.push(member@));
                if let Some((t, e)) = members_from(chars@, next as int) {
                    assert(before + (seq![member@] + t) =~= member_views(out@) + t);
                }
            }
            i = next;
        } else {
            return None;
        }
    }
}

/// Reads a payload as one object with nothing but blanks around it.
pub fn read_record(chars: &Vec<char>) -> (r: Option<Vec<Member>>)
    ensures
        match r {
            Some(members) => record_of(chars@) == Some(member_views(members@)),
            None => record_of(chars@) is None,
        },
{
    let open = pass_blanks(chars, 0);
    if open >= chars.len() || chars[open] != '{' {
        return None;
    }
    let first = pass_blanks(chars, open + 1);
    let (members, end) = if first < chars.len() && chars[first] == '}' {
        let none: Vec<Member> = Vec::new();
        assert(member_views(none@) =~= Seq::<MemberView>::empty());
        (none, first + 1)
    } else {
        match read_members(chars, first) {
            Some(read) => read,
            None => {
                return None;
            },
        }
    };
    if pass_blanks(chars, end) == chars.len() {
        Some(members)
    } else {
        None
    }
}

/// The position of the first member with the given key.
pub fn find(members: &Vec<Member>, key: &str) -> (at: Option<usize>)
    ensures
        match at {
            Some(i) => i < members.len() && lookup(member_views(members@), key@) == Some(
                members@[i as int].value@,
            ),
            None => lookup(member_views(members@), key@) is None,
        },
{
    let wanted = to_chars(key);
    let ghost all = member_views(members@);
    let mut i: usize = 0;
    assert(all.skip(0) =~= all);
    while i < members.len()
        invariant
            i <= members.len(),
            wanted@ == key@,
            all == member_views(members@),
            lookup(all, key@) == lookup(all.skip(i as int), key@),
        decreases members.len() - i,
    {
        assert(all.skip(i as int)[0] == members@[i as int]@);
        if same_chars(&members[i].key, &wanted) {
            return Some(i);
        }
        assert(all.skip(i as int).skip(1) =~= all.skip(i + 1));
        i += 1;
    }
    None
}

/// The integer under `key`, where the first member with that key holds one.
pub fn number_in(members: &Vec<Member>, key: &str) -> (number: Option<i64>)
    ensures
        number == number_under(member_views(members@), key@),
{
    match find(members, key) {
        Some(i) => match &members[i].value {
            Value::Number(n) => Some(*n),
            Value::Text(_) => None,
        },
        None => None,
    }
}

/// The text under `key`, where the first member with that key holds one.
pub fn text_in(members: &Vec<Member>, key: &str) -> (text: Option<String>)
    ensures
        match text {
            Some(t) => text_under(member_views(members@), key@) == Some(t@),
            None => text_under(member_views(members@), key@) is None,
        },
{
    match find(members, key) {
        Some(i) => match &members[i].value {
            Value::Number(_) => None,
            Value::Text(t) => Some(string_of(t)),
        },
        None => None,
    }
}

/// Builds the record from the members of an object.
pub fn event_from_members(members: &Vec<Member>) -> (event: Option<Event>)
    ensures
        event_view(event) == event_of_members(member_views(members@)),
{
    if members.len() != 4 {
        return None;
    }
    let code = number_in(members, "code");
    let service = text_in(members, "service");
    let timestamp = number_in(members, "timestamp");
    let message = text_in(members, "message");
    match (code, service, timestamp, message) {
        (Some(code), Some(service), Some(timestamp), Some(message)) => {
            if 0 <= code && code <= 0xFFFF {
                Some(Event { code: code as u16, service, timestamp, message })
            } else {
                None
            }
        },
        _ => None,
    }
}

/// Decodes a payload in the structured encoding.
pub fn parse_structured(payload: &str) -> (event: Option<Event>)
    ensures
        event_view(event) == structured_event(payload@),
{
    let chars = to_chars(payload);
    match read_record(&chars) {
        Some(members) => event_from_members(&members),
        None => None,
    }
}

} // verus!
