//! A guess at the code in a text that is no event: the first number that fits.
//! Routing never goes by it; it serves the diagnostics of a dropped payload.

use vstd::prelude::*;
use crate::text::{copy_range, decimal_u16, parse_u16, to_chars};

verus! {

/// Whether `c` is numeric in Unicode's sense (general categories Nd, Nl and No), as
/// `char::is_numeric` reports it.
pub uninterp spec fn unicode_numeric(c: char) -> bool;

/// Calls `char::is_numeric`. The contract gives the answer its name and states
/// nothing about which characters are numeric.
#[verifier::external_body]
pub(crate) fn is_numeric_char(c: char) -> (r: bool)
    ensures
        r == unicode_numeric(c),
{
    c.is_numeric()
}

/// For each character of `s`, whether it is numeric.
pub open spec fn numeric_marks(s: Seq<char>) -> Seq<bool> {
    s.map_values(|c: char| unicode_numeric(c))
}

/// The length of the run of `true` that `marks` starts with.
pub open spec fn marked_run(marks: Seq<bool>) -> int
    decreases marks.len(),
{
    if marks.len() == 0 || !marks[0] {
        0
    } else {
        1 + marked_run(marks.skip(1))
    }
}

/// The first word of `s` that is a `u16` in decimal, where the words are the pieces
/// of `s` between unmarked characters (empty pieces included); none where the marks
/// do not cover `s` one for one.
pub open spec fn code_in_words(s: Seq<char>, marks: Seq<bool>) -> Option<u16>
    decreases s.len(),
{
    if marks.len() != s.len() {
        None
    } else {
        let n = marked_run(marks);
        match decimal_u16(s.take(n)) {
            Some(code) => Some(code),
            None => if 0 <= n < s.len() {
                code_in_words(s.skip(n + 1), marks.skip(n + 1))
            } else {
                None
            },
        }
    }
}

/// `marked_run` is `k` once everything before `k` is marked and `k` ends the marks
/// or is unmarked.
pub proof fn lemma_marked_run(marks: Seq<bool>, k: int)
    requires
        0 <= k <= marks.len(),
        forall|j: int| 0 <= j < k ==> marks[j],
        k == marks.len() || !marks[k],
    ensures
        marked_run(marks) == k,
    decreases marks.len(),
{
    if marks.len() == 0 || !marks[0] {
    } else {
        lemma_marked_run(marks.skip(1), k - 1);
    }
}

/// Marks each character of `chars` as numeric or not.
pub fn mark_numeric(chars: &Vec<char>) -> (marks: Vec<bool>)
    ensures
        marks@ == numeric_marks(chars@),
{
    let mut marks: Vec<bool> = Vec::new();
    let mut i: usize = 0;
    while i < chars.len()
        invariant
            i <= chars.len(),
            marks@ == numeric_marks(chars@.take(i as int)),
        decreases chars.len() - i,
    {
        marks.push(is_numeric_char(chars[i]));
        i += 1;
        assert(marks@ =~= numeric_marks(chars@.take(i as int)));
    }
    assert(chars@.take(i as int) =~= chars@);
    marks
}

/// Finds the first word of `chars` that is a `u16` in decimal, the words being cut
/// at the unmarked characters.
pub fn first_code(chars: &Vec<char>, marks: &Vec<bool>) -> (code: Option<u16>)
    ensures
        code == code_in_words(chars@, marks@),
{
    if marks.len() != chars.len() {
        return None;
    }
    let mut start: usize = 0;
    proof {
        assert(chars@.skip(0) =~= chars@);
        assert(marks@.skip(0) =~= marks@);
    }
    loop
        invariant
            start <= chars.len(),
            marks.len() == chars.len(),
            code_in_words(chars@, marks@) == code_in_words(
                chars@.skip(start as int),
                marks@.skip(start as int),
            ),
        decreases chars.len() - start,
    {
        let mut end: usize = start;
        while end < chars.len() && marks[end]
            invariant
                start <= end <= chars.len(),
                marks.len() == chars.len(),
                forall|j: int| start <= j < end ==> marks@[j],
            decreases chars.len() - end,
        {
            end += 1;
        }
        let ghost rest = chars@.skip(start as int);
        let ghost rest_marks = marks@.skip(start as int);
        proof {
            lemma_marked_run(rest_marks, end - start);
            assert(rest.take(end - start) =~= chars@.subrange(start as int, end as int));
        }
        let word = copy_range(chars, start, end);
        match parse_u16(&word) {
            Some(code) => {
                return Some(code);
            },
            None => {},
        }
        if end == chars.len() {
            return None;
        }
        proof {
            assert(rest.skip(end - start + 1) =~= chars@.skip(end + 1));
            assert(rest_marks.skip(end - start + 1) =~= marks@.skip(end + 1));
        }
        start = end + 1;
    }
}

/// Guesses a code in free text: the text is cut at every character that is not
/// numeric, and the first piece that `str::parse::<u16>` would accept is the guess.
/// The guess says nothing of whether the text is an event, nor of the code of one.
pub fn guess_code(text: &str) -> (code: Option<u16>)
    ensures
        code == code_in_words(text@, numeric_marks(text@)),
{
    let chars = to_chars(text);
    let marks = mark_numeric(&chars);
    first_code(&chars, &marks)
}

} // verus!
