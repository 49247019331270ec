//! Lines of the wire format: each ends in CR LF.

use vstd::prelude::*;
use crate::octets::{find, first_index, lemma_first_index, lemma_first_index_is, CR, LF};

verus! {

/// Where the line that starts at `from` ends: just behind the first LF at
/// or after `from`. `None` where no LF follows, that is where the line is
/// not complete yet.
pub open spec fn line_end(input: Seq<u8>, from: int) -> Option<int> {
    if 0 <= from <= input.len() && first_index(input.skip(from), LF) < input.len() - from {
        Some(from + first_index(input.skip(from), LF) + 1)
    } else {
        None
    }
}

/// A line has at least one byte, lies within the input, ends with LF and
/// holds no other LF.
pub proof fn lemma_line_end(input: Seq<u8>, from: int)
    ensures
        match line_end(input, from) {
            Some(end) => {
                &&& 0 <= from < end <= input.len()
                &&& input[end - 1] == LF
                &&& forall|k: int| from <= k < end - 1 ==> input[k] != LF
            },
            None => 0 <= from <= input.len() ==> forall|k: int|
                from <= k < input.len() ==> input[k] != LF,
        },
{
    if 0 <= from <= input.len() {
        let rest = input.skip(from);
        lemma_first_index(rest, LF);
        let i = first_index(rest, LF);
        assert forall|k: int| from <= k < from + i && k < input.len() implies input[k] != LF by {
            assert(rest[k - from] == input[k]);
        }
    }
}

/// The only end of the line at `from` is the position behind an LF with no
/// LF between `from` and it.
pub proof fn lemma_line_end_is(input: Seq<u8>, from: int, end: int)
    requires
        0 <= from < end <= input.len(),
        input[end - 1] == LF,
        forall|k: int| from <= k < end - 1 ==> input[k] != LF,
    ensures
        line_end(input, from) == Some(end),
{
    let rest = input.skip(from);
    lemma_first_index_is(rest, LF, end - 1 - from);
}

/// A line depends only on the input up to its end: an input that agrees
/// with this one up to there has the same line at `from`.
pub proof fn lemma_line_of_prefix(input: Seq<u8>, from: int, other: Seq<u8>)
    requires
        line_end(input, from) is Some,
        other.len() >= line_end(input, from)->0,
        other.take(line_end(input, from)->0) == input.take(line_end(input, from)->0),
    ensures
        line_end(other, from) == line_end(input, from),
        other.subrange(from, line_end(input, from)->0) == input.subrange(
            from,
            line_end(input, from)->0,
        ),
{
    let end = line_end(input, from)->0;
    lemma_line_end(input, from);
    assert forall|k: int| 0 <= k < end implies other[k] == input[k] by {
        assert(other.take(end)[k] == input.take(end)[k]);
    }
    lemma_line_end_is(other, from, end);
}

/// Behind any bytes, a content without LF that is followed by CR LF is
/// read as one line with that content, whatever comes after it.
pub proof fn lemma_reads_line(before: Seq<u8>, c: Seq<u8>, after: Seq<u8>)
    requires
        !c.contains(LF),
    ensures
        line_end(before + c + seq![CR, LF] + after, before.len() as int) == Some(
            (before.len() + c.len() + 2) as int,
        ),
        content(
            (before + c + seq![CR, LF] + after).subrange(
                before.len() as int,
                (before.len() + c.len() + 2) as int,
            ),
        ) == Some(c),
{
    let input = before + c + seq![CR, LF] + after;
    let from = before.len() as int;
    let end = from + c.len() + 2;
    lemma_line_end_is(input, from, end);
}

/// The contents of the lines from `from` up to the blank line, and the
/// position behind the blank line. `None` where the input ends before a
/// blank line or holds a line that does not end in CR LF.
pub open spec fn lines_to_blank(input: Seq<u8>, from: int) -> Option<(Seq<Seq<u8>>, int)>
    decreases input.len() - from,
    via lines_to_blank_decreases
{
    match line_end(input, from) {
        None => None,
        Some(end) => match content(input.subrange(from, end)) {
            None => None,
            Some(c) => if c.len() == 0 {
                Some((Seq::empty(), end))
            } else {
                match lines_to_blank(input, end) {
                    None => None,
                    Some((rest, last)) => Some((seq![c] + rest, last)),
                }
            },
        },
    }
}

#[via_fn]
proof fn lines_to_blank_decreases(input: Seq<u8>, from: int) {
    lemma_line_end(input, from);
}

/// Where the line that starts at `from` ends, if it is complete.
pub fn next_line(input: &[u8], from: usize) -> (r: Option<usize>)
    ensures
        match r {
            Some(end) => line_end(input@, from as int) == Some(end as int),
            None => line_end(input@, from as int).is_none(),
        },
{
    if from > input.len() {
        return None;
    }
    let rest = vstd::slice::slice_subrange(input, from, input.len());
    let i = find(rest, LF);
    if i < rest.len() {
        Some(from + i + 1)
    } else {
        None
    }
}

/// What a line holds before its CR LF. `None` where the line does not end
/// in CR LF.
pub open spec fn content(line: Seq<u8>) -> Option<Seq<u8>> {
    if line.len() >= 2 && line[line.len() - 2] == CR && line[line.len() - 1] == LF {
        Some(line.take(line.len() - 2))
    } else {
        None
    }
}

/// What a line holds before its CR LF, if it ends in CR LF.
pub fn strip_terminator(line: &[u8]) -> (r: Option<&[u8]>)
    ensures
        match r {
            Some(c) => content(line@) == Some(c@),
            None => content(line@).is_none(),
        },
{
    let n = line.len();
    if n >= 2 && line[n - 2] == CR && line[n - 1] == LF {
        let c = vstd::slice::slice_subrange(line, 0, n - 2);
        Some(c)
    } else {
        None
    }
}

} // verus!
