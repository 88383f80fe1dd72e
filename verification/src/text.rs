//! Text as a sequence of characters: the few operations the parsers need.

use vstd::prelude::*;

verus! {

/// The characters of `s`, in order.
pub fn to_chars(s: &str) -> (chars: Vec<char>)
    ensures
        chars@ == s@,
{
    let mut chars: Vec<char> = Vec::new();
    for c in it: s.chars()
        invariant
            chars@ == it.seq().take(it.index()),
            it.seq() == s@,
    {
        chars.push(c);
    }
    chars
}

/// Collects characters into a `String` with std's `FromIterator<&char>` for
/// `String`: the result holds exactly the given characters, in order.
#[verifier::external_body]
pub(crate) fn string_of(chars: &Vec<char>) -> (text: String)
    ensures
        text@ == chars@,
{
    chars.iter().collect()
}

/// Whether two character vectors hold the same characters.
pub fn same_chars(x: &Vec<char>, y: &Vec<char>) -> (same: bool)
    ensures
        same == (x@ == y@),
{
    if x.len() != y.len() {
        return false;
    }
    let mut i: usize = 0;
    while i < x.len()
        invariant
            i <= x.len(),
            x.len() == y.len(),
            x@.take(i as int) == y@.take(i as int),
        decreases x.len() - i,
    {
        if x[i] != y[i] {
            return false;
        }
        i += 1;
        assert(x@.take(i as int) =~= x@.take(i - 1).push(x@[i - 1]));
        assert(y@.take(i as int) =~= y@.take(i - 1).push(y@[i - 1]));
    }
    assert(x@ =~= x@.take(i as int));
    assert(y@ =~= y@.take(i as int));
    true
}

/// Whether two texts hold the same characters.
pub fn same_text(a: &str, b: &str) -> (same: bool)
    ensures
        same == (a@ == b@),
{
    same_chars(&to_chars(a), &to_chars(b))
}

/// Whether `c` is Unicode white space: the characters that `str::trim` removes.
pub open spec fn is_space(c: char) -> bool {
    let n = c as u32;
    ||| 0x09 <= n <= 0x0D
    ||| n == 0x20
    ||| n == 0x85
    ||| n == 0xA0
    ||| n == 0x1680
    ||| 0x2000 <= n <= 0x200A
    ||| n == 0x2028
    ||| n == 0x2029
    ||| n == 0x202F
    ||| n == 0x205F
    ||| n == 0x3000
}

/// Tests a character for Unicode white space.
pub fn is_space_char(c: char) -> (r: bool)
    ensures
        r == is_space(c),
{
    let n: u32 = c as u32;
    (0x09 <= n && n <= 0x0D) || n == 0x20 || n == 0x85 || n == 0xA0 || n == 0x1680 || (0x2000 <= n
        && n <= 0x200A) || n == 0x2028 || n == 0x2029 || n == 0x202F || n == 0x205F || n == 0x3000
}

/// `s` without its leading white space.
pub open spec fn trim_start(s: Seq<char>) -> Seq<char>
    decreases s.len(),
{
    if s.len() > 0 && is_space(s[0]) {
        trim_start(s.skip(1))
    } else {
        s
    }
}

/// `s` without its trailing white space.
pub open spec fn trim_end(s: Seq<char>) -> Seq<char>
    decreases s.len(),
{
    if s.len() > 0 && is_space(s.last()) {
        trim_end(s.drop_last())
    } else {
        s
    }
}

/// `s` without white space at either end.
pub open spec fn trim(s: Seq<char>) -> Seq<char> {
    trim_end(trim_start(s))
}

/// The bounds, within `chars[from..to]`, of that range trimmed at both ends.
pub(crate) fn trim_bounds(chars: &Vec<char>, from: usize, to: usize) -> (bounds: (usize, usize))
    requires
        from <= to <= chars.len(),
    ensures
        from <= bounds.0 <= bounds.1 <= to,
        chars@.subrange(bounds.0 as int, bounds.1 as int) == trim(
            chars@.subrange(from as int, to as int),
        ),
{
    let mut a: usize = from;
    while a < to && is_space_char(chars[a])
        invariant
            from <= a <= to <= chars.len(),
            trim_start(chars@.subrange(from as int, to as int)) == trim_start(
                chars@.subrange(a as int, to as int),
            ),
        decreases to - a,
    {
        assert(chars@.subrange(a as int, to as int).skip(1) =~= chars@.subrange(
            a + 1,
            to as int,
        ));
        a += 1;
    }
    let mut b: usize = to;
    while a < b && is_space_char(chars[b - 1])
        invariant
            a <= b <= to <= chars.len(),
            trim_end(chars@.subrange(a as int, to as int)) == trim_end(
                chars@.subrange(a as int, b as int),
            ),
        decreases b - a,
    {
        assert(chars@.subrange(a as int, b as int).drop_last() =~= chars@.subrange(
            a as int,
            b - 1,
        ));
        b -= 1;
    }
    (a, b)
}

/// A copy of `chars[from..to]`.
pub(crate) fn copy_range(chars: &Vec<char>, from: usize, to: usize) -> (part: Vec<char>)
    requires
        from <= to <= chars.len(),
    ensures
        part@ == chars@.subrange(from as int, to as int),
{
    let mut part: Vec<char> = Vec::new();
    let mut i: usize = from;
    while i < to
        invariant
            from <= i <= to <= chars.len(),
            part@ == chars@.subrange(from as int, i as int),
        decreases to - i,
    {
        part.push(chars[i]);
        i += 1;
        assert(part@ =~= chars@.subrange(from as int, i as int));
    }
    part
}

/// The index of the first `c` in `s`, or the length of `s` where it holds none.
pub open spec fn index_of(s: Seq<char>, c: char) -> int
    decreases s.len(),
{
    if s.len() == 0 || s[0] == c {
        0
    } else {
        1 + index_of(s.skip(1), c)
    }
}

/// The pieces of `s` between occurrences of `sep`: one more piece than there are
/// separators, empty pieces included.
pub open spec fn split(s: Seq<char>, sep: char) -> Seq<Seq<char>>
    decreases s.len(),
{
    let i = index_of(s, sep);
    if 0 <= i < s.len() {
        seq![s.take(i)] + split(s.skip(i + 1), sep)
    } else {
        seq![s]
    }
}

/// `parts` joined into one text, with `sep` between neighbours.
pub open spec fn join(parts: Seq<Seq<char>>, sep: char) -> Seq<char>
    decreases parts.len(),
{
    if parts.len() == 0 {
        Seq::empty()
    } else if parts.len() == 1 {
        parts[0]
    } else {
        join(parts.drop_last(), sep).push(sep) + parts.last()
    }
}

/// `index_of` is the position `k` once nothing before `k` is `c` and `k` ends the
/// text or holds `c`.
pub proof fn lemma_index_of(s: Seq<char>, c: char, k: int)
    requires
        0 <= k <= s.len(),
        forall|j: int| 0 <= j < k ==> s[j] != c,
        k == s.len() || s[k] == c,
    ensures
        index_of(s, c) == k,
    decreases s.len(),
{
    if s.len() == 0 || s[0] == c {
    } else {
        lemma_index_of(s.skip(1), c, k - 1);
    }
}

/// The views of a vector of character vectors.
pub open spec fn views(parts: Seq<Vec<char>>) -> Seq<Seq<char>> {
    parts.map_values(|part: Vec<char>| part@)
}

/// Splits `chars` at every `sep`.
pub fn split_chars(chars: &Vec<char>, sep: char) -> (parts: Vec<Vec<char>>)
    ensures
        views(parts@) == split(chars@, sep),
{
    let mut parts: Vec<Vec<char>> = Vec::new();
    let mut start: usize = 0;
    proof {
        assert(chars@.skip(0) =~= chars@);
        assert(views(parts@) + split(chars@, sep) =~= split(chars@, sep));
    }
    loop
        invariant
            start <= chars.len(),
            split(chars@, sep) == views(parts@) + split(chars@.skip(start as int), sep),
        decreases chars.len() - start,
    {
        let mut end: usize = start;
        while end < chars.len() && chars[end] != sep
            invariant
                start <= end <= chars.len(),
                forall|j: int| start <= j < end ==> chars@[j] != sep,
            decreases chars.len() - end,
        {
            end += 1;
        }
        let ghost rest = chars@.skip(start as int);
        proof {
            lemma_index_of(rest, sep, end - start);
            assert(rest.take(end - start) =~= chars@.subrange(start as int, end as int));
        }
        let piece = copy_range(chars, start, end);
        let ghost before = parts@;
        parts.push(piece);
        assert(views(parts@) =~= views(before).push(piece@));
        if end == chars.len() {
            assert(rest.take(end - start) =~= rest);
            assert(views(parts@) =~= views(before) + seq![rest]);
            return parts;
        }
        proof {
            assert(rest.skip(end - start + 1) =~= chars@.skip(end + 1));
            assert(views(before) + (seq![rest.take(end - start)] + split(
                chars@.skip(end + 1),
                sep,
            )) =~= views(parts@) + split(chars@.skip(end + 1), sep));
        }
        start = end + 1;
    }
}

/// Whether `c` is one of the ten ASCII digits.
pub open spec fn is_digit(c: char) -> bool {
    '0' <= c <= '9'
}

/// The number that the ASCII digit `c` stands for.
pub open spec fn digit_value(c: char) -> nat {
    (c as u32 - '0' as u32) as nat
}

/// Whether `s` holds ASCII digits only.
pub open spec fn all_digits(s: Seq<char>) -> bool {
    forall|i: int| 0 <= i < s.len() ==> is_digit(#[trigger] s[i])
}

/// The number that the digits of `s` write in base ten; 0 for the empty text.
pub open spec fn digits_value(s: Seq<char>) -> nat
    decreases s.len(),
{
    if s.len() == 0 {
        0
    } else {
        digits_value(s.drop_last()) * 10 + digit_value(s.last())
    }
}

/// The number that `s` writes, where `s` is a non-empty run of ASCII digits whose
/// value is at most `limit`.
pub open spec fn bounded_number(s: Seq<char>, limit: nat) -> Option<u64> {
    if s.len() > 0 && all_digits(s) && digits_value(s) <= limit {
        Some(digits_value(s) as u64)
    } else {
        None
    }
}

/// What `str::parse::<u16>` accepts: an optional `+`, then at least one ASCII
/// digit, the whole not above 65535.
pub open spec fn decimal_u16(s: Seq<char>) -> Option<u16> {
    let body = if s.len() > 0 && s[0] == '+' {
        s.skip(1)
    } else {
        s
    };
    match bounded_number(body, 65535) {
        Some(v) => Some(v as u16),
        None => None,
    }
}

/// A prefix of a digit run never writes a larger number than the run.
pub proof fn lemma_digits_value_prefix(s: Seq<char>, k: int)
    requires
        0 <= k <= s.len(),
    ensures
        digits_value(s.take(k)) <= digits_value(s),
    decreases s.len(),
{
    if k == s.len() {
        assert(s.take(k) =~= s);
    } else {
        lemma_digits_value_prefix(s.drop_last(), k);
        assert(s.drop_last().take(k) =~= s.take(k));
    }
}

/// Tests a character for an ASCII digit.
pub fn is_digit_char(c: char) -> (r: bool)
    ensures
        r == is_digit(c),
{
    let n: u32 = c as u32;
    0x30 <= n && n <= 0x39
}

/// Reads `chars[from..to]` as a run of digits not above `limit`.
pub(crate) fn parse_digits(chars: &Vec<char>, from: usize, to: usize, limit: u64) -> (number: Option<u64>)
    requires
        from <= to <= chars.len(),
    ensures
        number == bounded_number(chars@.subrange(from as int, to as int), limit as nat),
{
    if from == to {
        return None;
    }
    let ghost whole = chars@.subrange(from as int, to as int);
    let mut acc: u128 = 0;
    let mut i: usize = from;
    while i < to
        invariant
            from <= i <= to <= chars.len(),
            whole == chars@.subrange(from as int, to as int),
            all_digits(whole.take(i - from)),
            acc == digits_value(whole.take(i - from)),
            acc <= limit,
        decreases to - i,
    {
        let c = chars[i];
        assert(c == whole[i - from]);
        if !is_digit_char(c) {
            return None;
        }
        let d: u128 = (c as u32 - 0x30) as u128;
        proof {
            assert(whole.take(i - from + 1).drop_last() =~= whole.take(i - from));
            assert(whole.take(i - from + 1).last() == c);
        }
        acc = acc * 10 + d;
        i += 1;
        if acc > limit as u128 {
            proof {
                lemma_digits_value_prefix(whole, i - from);
            }
            return None;
        }
    }
    assert(whole.take(i - from) =~= whole);
    Some(acc as u64)
}

/// Reads `chars` as `str::parse::<u16>` reads a text.
pub fn parse_u16(chars: &Vec<char>) -> (number: Option<u16>)
    ensures
        number == decimal_u16(chars@),
{
    let from: usize = if chars.len() > 0 && chars[0] == '+' {
        1
    } else {
        0
    };
    assert(chars@.subrange(from as int, chars.len() as int) =~= if from == 1 {
        chars@.skip(1)
    } else {
        chars@
    });
    match parse_digits(chars, from, chars.len(), 65535) {
        Some(v) => Some(v as u16),
        None => None,
    }
}

/// The ASCII digit that stands for `d`, a number below ten.
pub open spec fn digit_char(d: nat) -> char {
    (0x30 + d) as u8 as char
}

/// `n` written in base ten, without sign and without leading zeros.
pub open spec fn decimal(n: nat) -> Seq<char>
    decreases n,
{
    if n < 10 {
        seq![digit_char(n)]
    } else {
        decimal(n / 10).push(digit_char(n % 10))
    }
}

/// Reading what `decimal` wrote gives the number back.
pub proof fn lemma_decimal_reads_back(n: nat)
    ensures
        decimal(n).len() > 0,
        all_digits(decimal(n)),
        digits_value(decimal(n)) == n,
        forall|i: int| 0 <= i < decimal(n).len() ==> !is_space(#[trigger] decimal(n)[i]),
    decreases n,
{
    let last = digit_char(n % 10);
    assert(last as u32 == 0x30 + n % 10);
    assert('0' as u32 == 0x30);
    assert(digit_value(last) == n % 10);
    assert(decimal(n).last() == last);
    if n < 10 {
        assert(decimal(n).drop_last() =~= Seq::<char>::empty());
        assert(digits_value(decimal(n).drop_last()) == 0);
    } else {
        lemma_decimal_reads_back(n / 10);
        assert(decimal(n).drop_last() =~= decimal(n / 10));
    }
}

/// Writes `n` in base ten.
pub fn render_number(n: u64) -> (digits: Vec<char>)
    ensures
        digits@ == decimal(n as nat),
    decreases n,
{
    if n < 10 {
        let mut digits: Vec<char> = Vec::new();
        digits.push((0x30 + n as u8) as char);
        assert(digits@ =~= seq![digit_char(n as nat)]);
        digits
    } else {
        let mut digits = render_number(n / 10);
        digits.push((0x30 + (n % 10) as u8) as char);
        digits
    }
}

/// Whether `s` holds no `c`.
pub open spec fn free_of(s: Seq<char>, c: char) -> bool {
    forall|i: int| 0 <= i < s.len() ==> #[trigger] s[i] != c
}

/// Whether `s` holds white space only.
pub open spec fn all_space(s: Seq<char>) -> bool {
    forall|i: int| 0 <= i < s.len() ==> is_space(#[trigger] s[i])
}

/// A text without the separator is one piece.
pub proof fn lemma_split_one(s: Seq<char>, sep: char)
    requires
        free_of(s, sep),
    ensures
        split(s, sep) == seq![s],
{
    lemma_index_of(s, sep, s.len() as int);
}

/// A piece, the separator and a rest split into the piece and the pieces of the
/// rest.
pub proof fn lemma_split_first(piece: Seq<char>, sep: char, rest: Seq<char>)
    requires
        free_of(piece, sep),
    ensures
        split(piece.push(sep) + rest, sep) == seq![piece] + split(rest, sep),
{
    let whole = piece.push(sep) + rest;
    lemma_index_of(whole, sep, piece.len() as int);
    assert(whole.take(piece.len() as int) =~= piece);
    assert(whole.skip(piece.len() as int + 1) =~= rest);
}

/// White space in front of a text does not change what trimming leaves.
pub proof fn lemma_trim_lead(lead: Seq<char>, s: Seq<char>)
    requires
        all_space(lead),
    ensures
        trim(lead + s) == trim(s),
    decreases lead.len(),
{
    if lead.len() == 0 {
        assert(lead + s =~= s);
    } else {
        assert((lead + s).skip(1) =~= lead.skip(1) + s);
        assert((lead + s)[0] == lead[0]);
        lemma_trim_lead(lead.skip(1), s);
    }
}

/// White space behind a text does not change what trimming leaves.
pub proof fn lemma_trim_trail(s: Seq<char>, c: char)
    requires
        is_space(c),
    ensures
        trim(s.push(c)) == trim(s),
    decreases s.len(),
{
    if s.len() == 0 {
        assert(s.push(c).skip(1) =~= s);
    } else if is_space(s[0]) {
        assert(s.push(c).skip(1) =~= s.skip(1).push(c));
        lemma_trim_trail(s.skip(1), c);
    } else {
        assert(s.push(c).drop_last() =~= s);
    }
}

/// A text that neither starts nor ends with white space is its own trimming.
pub proof fn lemma_trim_nothing(s: Seq<char>)
    requires
        s.len() > 0 ==> !is_space(s[0]) && !is_space(s.last()),
    ensures
        trim(s) == s,
{
}

/// Trimming a text whose white space in front ends at a character that is none
/// leaves a text that starts with that character.
pub proof fn lemma_trim_keeps_first(s: Seq<char>, at: int)
    requires
        0 <= at < s.len(),
        all_space(s.take(at)),
        !is_space(s[at]),
    ensures
        trim(s).len() > 0,
        trim(s)[0] == s[at],
{
    let rest = s.skip(at);
    assert(s =~= s.take(at) + rest);
    lemma_trim_lead(s.take(at), rest);
    assert(trim_start(rest) == rest);
    lemma_trim_end_keeps_first(rest);
}

/// Trimming the end of a text that starts with a character that is no white space
/// keeps that character in front.
pub proof fn lemma_trim_end_keeps_first(s: Seq<char>)
    requires
        s.len() > 0,
        !is_space(s[0]),
    ensures
        trim_end(s).len() > 0,
        trim_end(s)[0] == s[0],
    decreases s.len(),
{
    if is_space(s.last()) {
        lemma_trim_end_keeps_first(s.drop_last());
    }
}

/// Where `index_of` points: nothing before it is `c`, and it ends the text or
/// holds `c`.
pub proof fn lemma_index_of_first(s: Seq<char>, c: char)
    ensures
        0 <= index_of(s, c) <= s.len(),
        forall|j: int| 0 <= j < index_of(s, c) ==> s[j] != c,
        index_of(s, c) < s.len() ==> s[index_of(s, c)] == c,
    decreases s.len(),
{
    if s.len() == 0 || s[0] == c {
    } else {
        lemma_index_of_first(s.skip(1), c);
        assert forall|j: int| 0 <= j < index_of(s, c) implies s[j] != c by {
            if j > 0 {
                assert(s[j] == s.skip(1)[j - 1]);
            }
        }
    }
}

} // verus!
