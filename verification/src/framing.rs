//! Cutting a text into the records it holds, one on each line.

use vstd::prelude::*;
use vstd::slice::slice_subrange;
use vstd::slice::slice_to_vec;
use vstd::std_specs::iter::IteratorSpec;
use vstd::string::StrSliceExecFns;
use vstd::utf8::encode_utf8;

verus! {

/// The code of the line feed, which ends a record.
pub const LINE_FEED: u8 = 0x0A;

/// Whether `char::is_whitespace` holds of `c`: whether `c` has the Unicode
/// property White_Space.
pub uninterp spec fn is_whitespace(c: char) -> bool;

/// Calls `char::is_whitespace`. Trusted: the answer depends on the character
/// alone, so that it can be given the name `is_whitespace(c)`.
#[verifier::external_body]
fn char_is_whitespace(c: char) -> (white: bool)
    ensures
        white == is_whitespace(c),
{
    c.is_whitespace()
}

/// For each character of `text`, whether it is whitespace.
pub open spec fn whitespace_flags(text: Seq<char>) -> Seq<bool> {
    Seq::new(text.len(), |i: int| is_whitespace(text[i]))
}

/// How many of `flags` are set before the first that is not.
pub open spec fn leading_set(flags: Seq<bool>) -> int
    decreases flags.len(),
{
    if flags.len() > 0 && flags.first() {
        1 + leading_set(flags.drop_first())
    } else {
        0
    }
}

/// How many of `flags` are set after the last that is not.
pub open spec fn trailing_set(flags: Seq<bool>) -> int
    decreases flags.len(),
{
    if flags.len() > 0 && flags.last() {
        1 + trailing_set(flags.drop_last())
    } else {
        0
    }
}

/// Where the part of a text starts and ends that is left when the
/// characters flagged at its start and at its end are taken away. The part
/// is empty when every character is flagged.
pub open spec fn kept_range(flags: Seq<bool>) -> (int, int) {
    let start = leading_set(flags);
    (start, flags.len() - trailing_set(flags.skip(start)))
}

/// `text` without the whitespace around it.
pub open spec fn trimmed(text: Seq<char>) -> Seq<char> {
    let (start, end) = kept_range(whitespace_flags(text));
    text.subrange(start, end)
}

/// The position of the first `mark` in `bytes`, or the length of `bytes` if
/// there is none.
pub open spec fn first_position(bytes: Seq<u8>, mark: u8) -> int
    decreases bytes.len(),
{
    if bytes.len() == 0 || bytes[0] == mark {
        0
    } else {
        1 + first_position(bytes.drop_first(), mark)
    }
}

/// The pieces of `bytes` between the occurrences of `mark`, in order. There
/// is always one piece more than there are marks, so the empty run has one
/// empty piece.
pub open spec fn split_on(bytes: Seq<u8>, mark: u8) -> Seq<Seq<u8>>
    decreases bytes.len(),
{
    let cut = first_position(bytes, mark);
    if 0 <= cut < bytes.len() {
        seq![bytes.take(cut)] + split_on(bytes.skip(cut + 1), mark)
    } else {
        seq![bytes]
    }
}

/// The bytes of each of `lines`, in order.
pub open spec fn lines_view(lines: Seq<Vec<u8>>) -> Seq<Seq<u8>> {
    Seq::new(lines.len(), |i: int| lines[i]@)
}

/// The records of a text: the bytes of each line of the text, once the
/// whitespace around the text is taken away.
pub open spec fn records_of(text: Seq<char>) -> Seq<Seq<u8>> {
    split_on(encode_utf8(trimmed(text)), LINE_FEED)
}

/// `first_position` is a position of `bytes` or its length, and no `mark`
/// stands before it.
pub proof fn lemma_first_position(bytes: Seq<u8>, mark: u8)
    ensures
        0 <= first_position(bytes, mark) <= bytes.len(),
        first_position(bytes, mark) < bytes.len() ==> bytes[first_position(bytes, mark)] == mark,
        forall|i: int| 0 <= i < first_position(bytes, mark) ==> #[trigger] bytes[i] != mark,
    decreases bytes.len(),
{
    if bytes.len() > 0 && bytes[0] != mark {
        let rest = bytes.drop_first();
        lemma_first_position(rest, mark);
        assert forall|i: int| 0 <= i < first_position(bytes, mark) implies #[trigger] bytes[i]
            != mark by {
            if i > 0 {
                assert(bytes[i] == rest[i - 1]);
            }
        }
    }
}

/// A position that holds `mark`, with no `mark` before it, is the first position.
pub proof fn lemma_first_position_is(bytes: Seq<u8>, mark: u8, at: int)
    requires
        0 <= at <= bytes.len(),
        at < bytes.len() ==> bytes[at] == mark,
        forall|i: int| 0 <= i < at ==> #[trigger] bytes[i] != mark,
    ensures
        first_position(bytes, mark) == at,
{
    lemma_first_position(bytes, mark);
    let first = first_position(bytes, mark);
    if first < at {
        assert(bytes[first] != mark);
    }
}

/// `leading_set` and `trailing_set` count flags of the sequence.
pub proof fn lemma_set_runs(flags: Seq<bool>)
    ensures
        0 <= leading_set(flags) <= flags.len(),
        0 <= trailing_set(flags) <= flags.len(),
        leading_set(flags) < flags.len() ==> !flags[leading_set(flags)],
        trailing_set(flags) < flags.len() ==> !flags[flags.len() - 1 - trailing_set(flags)],
        forall|i: int| 0 <= i < leading_set(flags) ==> #[trigger] flags[i],
        forall|i: int| flags.len() - trailing_set(flags) <= i < flags.len() ==> #[trigger] flags[i],
    decreases flags.len(),
{
    if flags.len() > 0 {
        if flags.first() {
            let rest = flags.drop_first();
            lemma_set_runs(rest);
            assert forall|i: int| 0 <= i < leading_set(flags) implies #[trigger] flags[i] by {
                if i > 0 {
                    assert(flags[i] == rest[i - 1]);
                }
            }
            if leading_set(flags) < flags.len() {
                assert(flags[leading_set(flags)] == rest[leading_set(rest)]);
            }
        }
        if flags.last() {
            let rest = flags.drop_last();
            lemma_set_runs(rest);
            assert forall|i: int| flags.len() - trailing_set(flags) <= i
                < flags.len() implies #[trigger] flags[i] by {
                if i < rest.len() {
                    assert(flags[i] == rest[i]);
                }
            }
            if trailing_set(flags) < flags.len() {
                assert(flags[flags.len() - 1 - trailing_set(flags)] == rest[rest.len() - 1
                    - trailing_set(rest)]);
            }
        }
    }
}

/// A run of set flags up to the first that is not set is the leading run.
pub proof fn lemma_leading_set_is(flags: Seq<bool>, count: int)
    requires
        0 <= count <= flags.len(),
        forall|i: int| 0 <= i < count ==> #[trigger] flags[i],
        count < flags.len() ==> !flags[count],
    ensures
        leading_set(flags) == count,
{
    lemma_set_runs(flags);
    let run = leading_set(flags);
    if run < count {
        assert(flags[run]);
    }
}

/// A run of set flags down to the last that is not set is the trailing run.
pub proof fn lemma_trailing_set_is(flags: Seq<bool>, count: int)
    requires
        0 <= count <= flags.len(),
        forall|i: int| flags.len() - count <= i < flags.len() ==> #[trigger] flags[i],
        count < flags.len() ==> !flags[flags.len() - 1 - count],
    ensures
        trailing_set(flags) == count,
{
    lemma_set_runs(flags);
    let run = trailing_set(flags);
    if run < count {
        assert(flags[flags.len() - 1 - run]);
    }
}

/// Where the part starts and ends that is left when the flagged positions
/// at the start and at the end are taken away.
pub fn trim_bounds(flags: &[bool]) -> (bounds: (usize, usize))
    ensures
        (bounds.0 as int, bounds.1 as int) == kept_range(flags@),
        bounds.0 <= bounds.1 <= flags@.len(),
{
    let n = flags.len();
    let mut start: usize = 0;
    while start < n && flags[start]
        invariant
            start <= n,
            n == flags@.len(),
            forall|i: int| 0 <= i < start ==> #[trigger] flags@[i],
        decreases n - start,
    {
        start += 1;
    }
    let ghost rest = flags@.skip(start as int);
    let mut end: usize = n;
    while end > start && flags[end - 1]
        invariant
            start <= end <= n,
            n == flags@.len(),
            forall|i: int| end <= i < n ==> #[trigger] flags@[i],
        decreases end,
    {
        end -= 1;
    }
    proof {
        lemma_leading_set_is(flags@, start as int);
        assert forall|i: int| rest.len() - (n - end) <= i < rest.len() implies #[trigger] rest[i] by {
            assert(rest[i] == flags@[i + start]);
        }
        lemma_trailing_set_is(rest, n - end);
    }
    (start, end)
}

/// For each character of `text`, whether it is whitespace.
pub fn classify(text: &str) -> (flags: Vec<bool>)
    ensures
        flags@ == whitespace_flags(text@),
{
    broadcast use vstd::string::group_string_axioms;

    let mut flags: Vec<bool> = Vec::new();
    let mut rest = text.chars();
    assert(text@.skip(0) =~= text@);
    loop
        invariant
            rest.obeys_prophetic_iter_laws(),
            flags@.len() <= text@.len(),
            rest.remaining() == text@.skip(flags@.len() as int),
            forall|i: int| 0 <= i < flags@.len() ==> flags@[i] == is_whitespace(text@[i]),
        ensures
            flags@.len() == text@.len(),
            forall|i: int| 0 <= i < flags@.len() ==> flags@[i] == is_whitespace(text@[i]),
        decreases text@.len() - flags@.len(),
    {
        match rest.next() {
            Some(c) => {
                assert(c == text@[flags@.len() as int]);
                flags.push(char_is_whitespace(c));
                assert(text@.skip(flags@.len() - 1).drop_first() =~= text@.skip(
                    flags@.len() as int,
                ));
            },
            None => {
                break;
            },
        }
    }
    assert(flags@ =~= whitespace_flags(text@));
    flags
}

/// The text without the whitespace around it.
pub fn trim(text: &str) -> (inner: &str)
    ensures
        inner@ == trimmed(text@),
{
    let flags = classify(text);
    let (start, end) = trim_bounds(flags.as_slice());
    text.substring_char(start, end)
}

/// The bytes of each line of `bytes`.
pub fn split_lines(bytes: &[u8]) -> (lines: Vec<Vec<u8>>)
    ensures
        lines_view(lines@) == split_on(bytes@, LINE_FEED),
{
    let mut lines: Vec<Vec<u8>> = Vec::new();
    let mut start: usize = 0;
    let mut i: usize = 0;
    assert(bytes@.skip(0) =~= bytes@);
    assert(lines_view(lines@) =~= Seq::<Seq<u8>>::empty());
    while i < bytes.len()
        invariant
            start <= i <= bytes.len(),
            forall|j: int| start <= j < i ==> bytes@[j] != LINE_FEED,
            split_on(bytes@, LINE_FEED) == lines_view(lines@) + split_on(
                bytes@.skip(start as int),
                LINE_FEED,
            ),
        decreases bytes.len() - i,
    {
        if bytes[i] == LINE_FEED {
            let ghost rest = bytes@.skip(start as int);
            let ghost before = lines_view(lines@);
            let line = slice_to_vec(slice_subrange(bytes, start, i));
            proof {
                lemma_first_position_is(rest, LINE_FEED, i - start);
                assert(rest.take(i - start) =~= line@);
                assert(rest.skip(i - start + 1) =~= bytes@.skip(i + 1));
            }
            lines.push(line);
            assert(lines_view(lines@) =~= before.push(line@));
            start = i + 1;
        }
        i += 1;
    }
    let ghost rest = bytes@.skip(start as int);
    let ghost before = lines_view(lines@);
    let line = slice_to_vec(slice_subrange(bytes, start, i));
    proof {
        lemma_first_position_is(rest, LINE_FEED, rest.len() as int);
        assert(rest =~= line@);
    }
    lines.push(line);
    assert(lines_view(lines@) =~= before.push(line@));
    lines
}

/// Cuts a text into its records: takes away the whitespace around the text
/// and gives the bytes of each line of the rest.
pub fn records(text: &str) -> (lines: Vec<Vec<u8>>)
    ensures
        lines_view(lines@) == records_of(text@),
{
    split_lines(trim(text).as_bytes())
}

} // verus!
