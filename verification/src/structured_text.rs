//! Writing a record in the structured encoding, and the proof that what is written
//! reads back.

use vstd::prelude::*;
use crate::event::{Event, EventView};
use crate::structured::{
    digits_end, escape_at, hex4, hex_value, is_blank, is_scalar, lookup, member_at, members_from,
    number_at, number_under, prefixed, record_of, skip_blanks, string_at, structured_event,
    text_from, text_under, value_at, MemberView, ValueView,
};
use crate::text::{
    all_digits, bounded_number, decimal, digit_char, is_digit, lemma_decimal_reads_back,
    render_number, string_of, to_chars,
};

verus! {

/// The lower-case hexadecimal digit that stands for `d`, a number below sixteen.
pub open spec fn hex_digit(d: nat) -> char {
    if d < 10 {
        (0x30 + d) as u8 as char
    } else {
        (0x57 + d) as u8 as char
    }
}

/// How one character of a text stands in a string literal: the quote and the
/// backslash behind a backslash, a control character as `\u00XX`, any other as
/// itself.
pub open spec fn escaped_char(c: char) -> Seq<char> {
    if c == '"' || c == '\\' {
        seq!['\\', c]
    } else if (c as u32) < 0x20 {
        seq![
            '\\',
            'u',
            '0',
            '0',
            hex_digit((c as u32 / 16) as nat),
            hex_digit((c as u32 % 16) as nat),
        ]
    } else {
        seq![c]
    }
}

/// A text with each character as it stands in a string literal.
pub open spec fn escaped(text: Seq<char>) -> Seq<char>
    decreases text.len(),
{
    if text.len() == 0 {
        Seq::empty()
    } else {
        escaped_char(text[0]) + escaped(text.skip(1))
    }
}

/// The string literal of a text.
pub open spec fn quoted(text: Seq<char>) -> Seq<char> {
    seq!['"'] + escaped(text) + seq!['"']
}

/// An integer in decimal, with `-` in front of a negative one.
pub open spec fn signed_decimal(n: i64) -> Seq<char> {
    if n < 0 {
        seq!['-'] + decimal((0 - n) as nat)
    } else {
        decimal(n as nat)
    }
}

/// How a value is written.
pub open spec fn value_text(value: ValueView) -> Seq<char> {
    match value {
        ValueView::Number(n) => signed_decimal(n),
        ValueView::Text(t) => quoted(t),
    }
}

/// How a member is written: key, colon, value, without blanks.
pub open spec fn member_text(member: MemberView) -> Seq<char> {
    quoted(member.key) + seq![':'] + value_text(member.value)
}

/// How the members of an object are written, up to and with the closing brace.
pub open spec fn members_text(members: Seq<MemberView>) -> Seq<char>
    decreases members.len(),
{
    if members.len() <= 1 {
        if members.len() == 1 {
            member_text(members[0]).push('}')
        } else {
            seq!['}']
        }
    } else {
        member_text(members[0]).push(',') + members_text(members.skip(1))
    }
}

/// How an object is written.
pub open spec fn object_text(members: Seq<MemberView>) -> Seq<char> {
    seq!['{'] + members_text(members)
}

/// The four members that carry an event, in the order in which they are written.
pub open spec fn event_members(event: EventView) -> Seq<MemberView> {
    seq![
        MemberView { key: "code"@, value: ValueView::Number(event.code as i64) },
        MemberView { key: "service"@, value: ValueView::Text(event.service) },
        MemberView { key: "timestamp"@, value: ValueView::Number(event.timestamp) },
        MemberView { key: "message"@, value: ValueView::Text(event.message) },
    ]
}

/// The payload that an event is written as in the structured encoding.
pub open spec fn structured_text(event: EventView) -> Seq<char> {
    object_text(event_members(event))
}

/// Whether `piece` stands in `s` at position `i`.
pub open spec fn stands_at(s: Seq<char>, i: int, piece: Seq<char>) -> bool {
    0 <= i && i + piece.len() <= s.len() && s.subrange(i, i + piece.len()) == piece
}

/// Where two pieces stand one after the other, each stands at its place.
pub proof fn lemma_stands_split(s: Seq<char>, i: int, front: Seq<char>, back: Seq<char>)
    requires
        stands_at(s, i, front + back),
    ensures
        stands_at(s, i, front),
        stands_at(s, i + front.len(), back),
{
    let both = front + back;
    assert(s.subrange(i, i + front.len()) =~= front) by {
        assert forall|k: int| 0 <= k < front.len() implies s.subrange(i, i + front.len())[k]
            == front[k] by {
            assert(s.subrange(i, i + both.len())[k] == both[k]);
        }
    }
    assert(s.subrange(i + front.len(), i + front.len() + back.len()) =~= back) by {
        assert forall|k: int| 0 <= k < back.len() implies s.subrange(
            i + front.len(),
            i + front.len() + back.len(),
        )[k] == back[k] by {
            assert(s.subrange(i, i + both.len())[front.len() + k] == both[front.len() + k]);
        }
    }
}

/// Where a piece stands, each of its characters stands.
pub proof fn lemma_stands_char(s: Seq<char>, i: int, piece: Seq<char>, k: int)
    requires
        stands_at(s, i, piece),
        0 <= k < piece.len(),
    ensures
        s[i + k] == piece[k],
{
    assert(s.subrange(i, i + piece.len())[k] == piece[k]);
}

/// A hexadecimal digit reads back as the number it stands for.
pub proof fn lemma_hex_digit(d: nat)
    requires
        d < 16,
    ensures
        hex_value(hex_digit(d)) == Some(d as u32),
{
    let c = hex_digit(d);
    if d < 10 {
        assert(c as u32 == 0x30 + d);
    } else {
        assert(c as u32 == 0x57 + d);
    }
    assert('0' as u32 == 0x30 && '9' as u32 == 0x39);
    assert('a' as u32 == 0x61 && 'f' as u32 == 0x66);
}

/// The escape of a control character reads back as the character.
pub proof fn lemma_control_escape(s: Seq<char>, i: int, c: char)
    requires
        (c as u32) < 0x20,
        stands_at(s, i, escaped_char(c)),
    ensures
        escape_at(s, i + 1) == Some((c, i + 6)),
{
    let high = (c as u32 / 16) as nat;
    let low = (c as u32 % 16) as nat;
    let piece = escaped_char(c);
    assert(c != '"' && c != '\\') by {
        assert('"' as u32 == 0x22 && '\\' as u32 == 0x5C);
    }
    lemma_hex_digit(0);
    lemma_hex_digit(high);
    lemma_hex_digit(low);
    lemma_stands_char(s, i, piece, 1);
    lemma_stands_char(s, i, piece, 2);
    lemma_stands_char(s, i, piece, 3);
    lemma_stands_char(s, i, piece, 4);
    lemma_stands_char(s, i, piece, 5);
    assert(hex_digit(0) == '0');
    assert(hex4(s, i + 2) == Some(c as u32)) by {
        assert(((0 * 16 + 0) * 16 + high) * 16 + low == c as u32);
    }
    assert(is_scalar(c as u32));
    assert((c as u32) as char == c);
}

/// One character of a text reads back from how it stands in a literal.
pub proof fn lemma_escaped_char_reads_back(s: Seq<char>, i: int, c: char)
    requires
        stands_at(s, i, escaped_char(c)),
    ensures
        text_from(s, i) == prefixed(seq![c], text_from(s, i + escaped_char(c).len())),
{
    let piece = escaped_char(c);
    lemma_stands_char(s, i, piece, 0);
    if c == '"' || c == '\\' {
        lemma_stands_char(s, i, piece, 1);
        assert(escape_at(s, i + 1) == Some((c, i + 2)));
    } else if (c as u32) < 0x20 {
        lemma_control_escape(s, i, c);
    } else {
    }
}

/// A string literal reads back as its text, wherever it stands: from the position
/// after the opening quote, the escaped text and the closing quote give the text
/// and the position after the closing quote.
pub proof fn lemma_text_reads_back(s: Seq<char>, i: int, text: Seq<char>)
    requires
        stands_at(s, i, escaped(text).push('"')),
    ensures
        text_from(s, i) == Some((text, i + escaped(text).len() + 1)),
    decreases text.len(),
{
    if text.len() == 0 {
        lemma_stands_char(s, i, escaped(text).push('"'), 0);
    } else {
        let c = text[0];
        let rest = text.skip(1);
        let piece = escaped_char(c);
        assert(escaped(text).push('"') =~= piece + escaped(rest).push('"'));
        lemma_stands_split(s, i, piece, escaped(rest).push('"'));
        lemma_escaped_char_reads_back(s, i, c);
        lemma_text_reads_back(s, i + piece.len(), rest);
        assert(seq![c] + rest =~= text);
    }
}

/// A string literal reads back as its text, wherever it stands.
pub proof fn lemma_string_reads_back(s: Seq<char>, i: int, text: Seq<char>)
    requires
        stands_at(s, i, quoted(text)),
    ensures
        string_at(s, i) == Some((text, i + quoted(text).len())),
{
    assert(quoted(text) =~= seq!['"'] + escaped(text).push('"'));
    lemma_stands_split(s, i, seq!['"'], escaped(text).push('"'));
    lemma_stands_char(s, i, seq!['"'], 0);
    lemma_text_reads_back(s, i + 1, text);
}

/// A run of digits ends where what follows it is no digit.
pub proof fn lemma_digits_end(s: Seq<char>, i: int, digits: Seq<char>)
    requires
        stands_at(s, i, digits),
        all_digits(digits),
        i + digits.len() == s.len() || !is_digit(s[i + digits.len()]),
    ensures
        digits_end(s, i) == i + digits.len(),
    decreases digits.len(),
{
    if digits.len() > 0 {
        lemma_stands_char(s, i, digits, 0);
        let rest = digits.skip(1);
        assert(digits =~= seq![digits[0]] + rest);
        lemma_stands_split(s, i, seq![digits[0]], rest);
        assert(all_digits(rest)) by {
            assert forall|j: int| 0 <= j < rest.len() implies is_digit(#[trigger] rest[j]) by {
                assert(rest[j] == digits[j + 1]);
            }
        }
        lemma_digits_end(s, i + 1, rest);
    }
}

/// A number starts with a digit, and with no zero where it has more than one.
pub proof fn lemma_decimal_leads(n: nat)
    ensures
        decimal(n).len() > 0,
        is_digit(decimal(n)[0]),
        decimal(n).len() > 1 ==> decimal(n)[0] != '0',
        n >= 10 ==> decimal(n).len() > 1,
    decreases n,
{
    lemma_decimal_reads_back(n);
    if n >= 10 {
        lemma_decimal_leads(n / 10);
        assert(decimal(n)[0] == decimal(n / 10)[0]);
        if n / 10 < 10 {
            assert(decimal(n / 10)[0] == digit_char(n / 10));
            assert(digit_char(n / 10) as u32 == 0x30 + n / 10);
            assert('0' as u32 == 0x30);
        }
    }
}

/// An integer reads back, wherever it stands, where no digit follows it.
pub proof fn lemma_number_reads_back(s: Seq<char>, i: int, n: i64)
    requires
        stands_at(s, i, signed_decimal(n)),
        i + signed_decimal(n).len() == s.len() || !is_digit(s[i + signed_decimal(n).len()]),
    ensures
        number_at(s, i) == Some((n, i + signed_decimal(n).len())),
{
    if n < 0 {
        let magnitude = (0 - n) as nat;
        let digits = decimal(magnitude);
        lemma_decimal_reads_back(magnitude);
        lemma_decimal_leads(magnitude);
        lemma_stands_split(s, i, seq!['-'], digits);
        lemma_stands_char(s, i, seq!['-'], 0);
        lemma_stands_char(s, i + 1, digits, 0);
        lemma_digits_end(s, i + 1, digits);
        assert(bounded_number(digits, 0x8000_0000_0000_0000) == Some(magnitude as u64));
    } else {
        let digits = decimal(n as nat);
        lemma_decimal_reads_back(n as nat);
        lemma_decimal_leads(n as nat);
        lemma_stands_char(s, i, digits, 0);
        lemma_digits_end(s, i, digits);
        assert(bounded_number(digits, 0x7FFF_FFFF_FFFF_FFFF) == Some(n as u64));
    }
}

/// How a value starts: with a quote, a minus or a digit, and so with no blank.
pub proof fn lemma_value_text_starts(value: ValueView)
    ensures
        value_text(value).len() > 0,
        !is_blank(value_text(value)[0]),
        value matches ValueView::Number(_) ==> value_text(value)[0] != '"',
        value matches ValueView::Text(_) ==> value_text(value)[0] == '"',
{
    match value {
        ValueView::Number(n) => {
            if n < 0 {
                lemma_decimal_leads((0 - n) as nat);
            } else {
                lemma_decimal_leads(n as nat);
            }
        },
        ValueView::Text(_) => {},
    }
}

/// A value reads back, wherever it stands, where no digit follows it.
pub proof fn lemma_value_reads_back(s: Seq<char>, i: int, value: ValueView)
    requires
        stands_at(s, i, value_text(value)),
        i + value_text(value).len() == s.len() || !is_digit(s[i + value_text(value).len()]),
    ensures
        value_at(s, i) == Some((value, i + value_text(value).len())),
{
    lemma_value_text_starts(value);
    lemma_stands_char(s, i, value_text(value), 0);
    match value {
        ValueView::Number(n) => {
            lemma_number_reads_back(s, i, n);
        },
        ValueView::Text(t) => {
            lemma_string_reads_back(s, i, t);
        },
    }
}

/// A member reads back, wherever it stands, where no digit follows it.
pub proof fn lemma_member_reads_back(s: Seq<char>, i: int, member: MemberView)
    requires
        stands_at(s, i, member_text(member)),
        i + member_text(member).len() == s.len() || !is_digit(s[i + member_text(member).len()]),
    ensures
        member_at(s, i) == Some((member, i + member_text(member).len())),
{
    let key = quoted(member.key);
    let value = value_text(member.value);
    assert(member_text(member) =~= key + (seq![':'] + value));
    lemma_stands_split(s, i, key, seq![':'] + value);
    let colon = i + key.len();
    lemma_stands_split(s, colon, seq![':'], value);
    lemma_stands_char(s, colon, seq![':'], 0);
    lemma_string_reads_back(s, i, member.key);
    assert(skip_blanks(s, colon) == colon);
    lemma_value_text_starts(member.value);
    lemma_stands_char(s, colon + 1, value, 0);
    assert(skip_blanks(s, colon + 1) == colon + 1);
    lemma_value_reads_back(s, colon + 1, member.value);
}

/// How the members of an object start: with the quote of the first key.
pub proof fn lemma_members_text_starts(members: Seq<MemberView>)
    requires
        members.len() > 0,
    ensures
        members_text(members).len() > 0,
        members_text(members)[0] == '"',
{
}

/// The members of an object read back, wherever they stand.
pub proof fn lemma_members_read_back(s: Seq<char>, i: int, members: Seq<MemberView>)
    requires
        members.len() > 0,
        stands_at(s, i, members_text(members)),
    ensures
        members_from(s, i) == Some((members, i + members_text(members).len())),
    decreases members.len(),
{
    let first = members[0];
    let written = member_text(first);
    let mark = i + written.len();
    if members.len() == 1 {
        assert(members_text(members) =~= written + seq!['}']);
        lemma_stands_split(s, i, written, seq!['}']);
        lemma_stands_char(s, mark, seq!['}'], 0);
        lemma_member_reads_back(s, i, first);
        assert(skip_blanks(s, mark) == mark);
        assert(members =~= seq![first]);
    } else {
        let rest = members.skip(1);
        let tail = members_text(rest);
        assert(members_text(members) =~= written + (seq![','] + tail));
        lemma_stands_split(s, i, written, seq![','] + tail);
        lemma_stands_split(s, mark, seq![','], tail);
        lemma_stands_char(s, mark, seq![','], 0);
        lemma_member_reads_back(s, i, first);
        assert(skip_blanks(s, mark) == mark);
        lemma_members_text_starts(rest);
        lemma_stands_char(s, mark + 1, tail, 0);
        assert(skip_blanks(s, mark + 1) == mark + 1);
        lemma_members_read_back(s, mark + 1, rest);
        assert(seq![first] + rest =~= members);
    }
}

/// Round trip for objects: the text of a list of at least one member is a payload
/// that reads back as that list.
pub proof fn lemma_object_reads_back(members: Seq<MemberView>)
    requires
        members.len() > 0,
    ensures
        record_of(object_text(members)) == Some(members),
{
    let s = object_text(members);
    let body = members_text(members);
    assert(s.subrange(1, 1 + body.len() as int) =~= body);
    lemma_members_text_starts(members);
    lemma_stands_char(s, 1, body, 0);
    lemma_members_read_back(s, 1, members);
    assert(s[0] == '{');
    assert(skip_blanks(s, 0) == 0);
    assert(skip_blanks(s, 1) == 1);
    assert(skip_blanks(s, s.len() as int) == s.len());
}

/// The four keys differ from one another.
pub proof fn lemma_keys_differ()
    ensures
        "code"@ != "service"@,
        "code"@ != "timestamp"@,
        "code"@ != "message"@,
        "service"@ != "timestamp"@,
        "service"@ != "message"@,
        "timestamp"@ != "message"@,
{
    reveal_strlit("code");
    reveal_strlit("service");
    reveal_strlit("timestamp");
    reveal_strlit("message");
    assert("code"@.len() == 4 && "service"@.len() == 7 && "timestamp"@.len() == 9);
    assert("service"@[0] == 's' && "message"@[0] == 'm');
}

/// Round trip. Every event, written in the structured encoding, decodes to itself.
pub proof fn lemma_structured_round_trip(event: EventView)
    ensures
        structured_event(structured_text(event)) == Some(event),
{
    let members = event_members(event);
    lemma_object_reads_back(members);
    lemma_keys_differ();
    reveal_with_fuel(lookup, 5);
    assert(members.skip(1)[0] == members[1]);
    assert(members.skip(1).skip(1)[0] == members[2]);
    assert(members.skip(1).skip(1).skip(1)[0] == members[3]);
    assert(number_under(members, "code"@) == Some(event.code as i64));
    assert(text_under(members, "service"@) == Some(event.service));
    assert(number_under(members, "timestamp"@) == Some(event.timestamp));
    assert(text_under(members, "message"@) == Some(event.message));
}

/// The lower-case hexadecimal digit for a number below sixteen.
pub(crate) fn hex_digit_of(d: u8) -> (c: char)
    requires
        d < 16,
    ensures
        c == hex_digit(d as nat),
{
    if d < 10 {
        (0x30 + d) as char
    } else {
        (0x57 + d) as char
    }
}

/// Appends a text as a string literal.
pub fn write_quoted(out: &mut Vec<char>, text: &Vec<char>)
    ensures
        final(out)@ == old(out)@ + quoted(text@),
{
    let ghost before = out@;
    out.push('"');
    let mut i: usize = 0;
    proof {
        assert(text@.skip(0) =~= text@);
    }
    while i < text.len()
        invariant
            i <= text.len(),
            out@ + escaped(text@.skip(i as int)) == before.push('"') + escaped(text@),
        decreases text.len() - i,
    {
        let c = text[i];
        let ghost so_far = out@;
        let n: u32 = c as u32;
        if c == '"' || c == '\\' {
            out.push('\\');
            out.push(c);
        } else if n < 0x20 {
            out.push('\\');
            out.push('u');
            out.push('0');
            out.push('0');
            out.push(hex_digit_of((n / 16) as u8));
            out.push(hex_digit_of((n % 16) as u8));
        } else {
            out.push(c);
        }
        proof {
            let rest = text@.skip(i as int);
            assert(rest[0] == c);
            assert(rest.skip(1) =~= text@.skip(i + 1));
            assert(out@ =~= so_far + escaped_char(c));
            assert(out@ + escaped(text@.skip(i + 1)) =~= so_far + escaped(rest));
        }
        i += 1;
    }
    out.push('"');
    proof {
        assert(escaped(text@.skip(i as int)) =~= Seq::<char>::empty());
        assert(out@ =~= before + quoted(text@));
    }
}

/// Appends an integer in decimal.
pub fn write_signed(out: &mut Vec<char>, n: i64)
    ensures
        final(out)@ == old(out)@ + signed_decimal(n),
{
    let ghost before = out@;
    if n < 0 {
        let magnitude: u64 = if n == i64::MIN {
            0x8000_0000_0000_0000
        } else {
            (0 - n) as u64
        };
        out.push('-');
        let mut digits = render_number(magnitude);
        out.append(&mut digits);
        assert(out@ =~= before + signed_decimal(n));
    } else {
        let mut digits = render_number(n as u64);
        out.append(&mut digits);
    }
}

/// Appends a member whose value is an integer.
pub fn write_number_member(out: &mut Vec<char>, key: &str, n: i64)
    ensures
        final(out)@ == old(out)@ + member_text(
            MemberView { key: key@, value: ValueView::Number(n) },
        ),
{
    let ghost before = out@;
    write_quoted(out, &to_chars(key));
    out.push(':');
    write_signed(out, n);
    assert(out@ =~= before + (quoted(key@) + seq![':'] + signed_decimal(n)));
}

/// Appends a member whose value is a text.
pub fn write_text_member(out: &mut Vec<char>, key: &str, text: &str)
    ensures
        final(out)@ == old(out)@ + member_text(
            MemberView { key: key@, value: ValueView::Text(text@) },
        ),
{
    let ghost before = out@;
    write_quoted(out, &to_chars(key));
    out.push(':');
    write_quoted(out, &to_chars(text));
    assert(out@ =~= before + (quoted(key@) + seq![':'] + quoted(text@)));
}

/// Writes an event as a payload of the structured encoding.
pub fn render_structured(event: &Event) -> (payload: String)
    ensures
        payload@ == structured_text(event@),
{
    let mut out: Vec<char> = Vec::new();
    out.push('{');
    write_number_member(&mut out, "code", event.code as i64);
    out.push(',');
    write_text_member(&mut out, "service", event.service.as_str());
    out.push(',');
    write_number_member(&mut out, "timestamp", event.timestamp);
    out.push(',');
    write_text_member(&mut out, "message", event.message.as_str());
    out.push('}');
    proof {
        let members = event_members(event@);
        let tail1 = members.skip(1);
        let tail2 = tail1.skip(1);
        let tail3 = tail2.skip(1);
        assert(tail1[0] == members[1] && tail2[0] == members[2] && tail3[0] == members[3]);
        assert(members_text(tail3) == member_text(members[3]).push('}'));
        assert(members_text(tail2) == member_text(members[2]).push(',') + members_text(tail3));
        assert(members_text(tail1) == member_text(members[1]).push(',') + members_text(tail2));
        assert(members_text(members) == member_text(members[0]).push(',') + members_text(tail1));
        assert(out@ =~= structured_text(event@));
    }
    string_of(&out)
}

} // verus!
