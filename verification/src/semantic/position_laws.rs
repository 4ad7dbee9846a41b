//! What holds of every line and column.

use crate::semantic::positions::{
    breaks_in, bytes_before, last_line, line_start, next_break, position_of,
};
use vstd::prelude::*;

verus! {

/// The line feeds before an offset.
pub open spec fn feeds_before(bytes: Seq<u8>, offset: int) -> nat {
    bytes.take(offset).filter(|b: u8| b == 10).len()
}

proof fn lemma_breaks(bytes: Seq<u8>)
    ensures
        breaks_in(bytes) == bytes.filter(|b: u8| b == 10).len(),
    decreases bytes.len(),
{
    reveal(Seq::filter);
    if bytes.len() > 0 {
        lemma_breaks(bytes.drop_last());
    }
}

proof fn lemma_last_line(bytes: Seq<u8>, j: int)
    ensures
        last_line(bytes) <= bytes.len(),
        last_line(bytes) > 0 ==> bytes[last_line(bytes) - 1] == 10,
        last_line(bytes) <= j < bytes.len() ==> bytes[j] != 10,
    decreases bytes.len(),
{
    if bytes.len() > 0 && bytes.last() != 10 {
        lemma_last_line(bytes.drop_last(), j);
    }
}

/// An offset lies in the line that comes behind as many line feeds as stand before it. Its column is
/// its distance from the start of that line: no line feed stands between, and one stands before the
/// start, unless it is the start of the text.
pub proof fn lemma_position(bytes: Seq<u8>, offset: nat, j: int)
    requires
        offset <= bytes.len(),
    ensures
        position_of(bytes, offset).0 == feeds_before(bytes, offset as int) + 1,
        position_of(bytes, offset).1 <= offset,
        offset - position_of(bytes, offset).1 <= j < offset ==> bytes[j] != 10,
        position_of(bytes, offset).1 < offset ==> bytes[offset - position_of(bytes, offset).1 - 1]
            == 10,
{
    let before = bytes_before(bytes, offset);
    lemma_breaks(before);
    lemma_last_line(before, j);
    let start = last_line(before) as int;
    assert(offset - position_of(bytes, offset).1 == start);
    if start > 0 {
        assert(before[start - 1] == bytes[start - 1]);
    }
    if start <= j < offset {
        assert(before[j] == bytes[j]);
    }
}

/// An offset beyond the end stands for the end.
pub proof fn lemma_position_beyond(bytes: Seq<u8>, offset: nat)
    requires
        offset > bytes.len(),
    ensures
        position_of(bytes, offset) == position_of(bytes, bytes.len()),
{
    assert(bytes.take(bytes.len() as int) =~= bytes);
}

proof fn lemma_next(bytes: Seq<u8>, from: int, j: int)
    requires
        0 <= from <= bytes.len(),
    ensures
        next_break(bytes, from) matches Some(i) ==> from <= i < bytes.len() && bytes[i] == 10 && (
        from <= j < i ==> bytes[j] != 10),
        next_break(bytes, from) is None ==> (from <= j < bytes.len() ==> bytes[j] != 10),
    decreases bytes.len() - from,
{
    if from < bytes.len() && bytes[from] != 10 {
        lemma_next(bytes, from + 1, j);
    }
}

proof fn lemma_feeds_step(bytes: Seq<u8>, at: int)
    requires
        0 <= at < bytes.len(),
    ensures
        feeds_before(bytes, at + 1) == feeds_before(bytes, at) + if bytes[at] == 10 {
            1int
        } else {
            0int
        },
{
    reveal(Seq::filter);
    let more = bytes.take(at + 1);
    assert(more.drop_last() =~= bytes.take(at));
    assert(more.last() == bytes[at]);
}

proof fn lemma_feeds_grow(bytes: Seq<u8>, a: int, b: int)
    requires
        0 <= a <= b <= bytes.len(),
    ensures
        feeds_before(bytes, a) <= feeds_before(bytes, b),
        (forall|j: int| a <= j < b ==> bytes[j] != 10) ==> feeds_before(bytes, a) == feeds_before(
            bytes,
            b,
        ),
    decreases b - a,
{
    if a < b {
        lemma_feeds_grow(bytes, a, b - 1);
        lemma_feeds_step(bytes, b - 1);
    }
}

/// A line begins at the start of the text or behind a line feed, and behind as many line feeds as there
/// are lines before it.
pub proof fn lemma_line_begins(bytes: Seq<u8>, line: nat)
    requires
        line >= 1,
    ensures
        line_start(bytes, line) matches Some(s) ==> 0 <= s <= bytes.len() && feeds_before(bytes, s)
            == line - 1 && (s == 0 || bytes[s - 1] == 10),
        line_start(bytes, line) is None ==> feeds_before(bytes, bytes.len() as int) < line - 1,
    decreases line,
{
    reveal(Seq::filter);
    assert(bytes.take(0) =~= Seq::<u8>::empty());
    assert(feeds_before(bytes, 0) == 0);
    let end = bytes.len() as int;
    if line > 1 {
        let earlier = (line - 1) as nat;
        lemma_line_begins(bytes, earlier);
        if let Some(s) = line_start(bytes, earlier) {
            lemma_next(bytes, s, s);
            match next_break(bytes, s) {
                Some(i) => {
                    assert forall|j: int| s <= j < i implies bytes[j] != 10 by {
                        lemma_next(bytes, s, j);
                    }
                    lemma_feeds_grow(bytes, s, i);
                    lemma_feeds_step(bytes, i);
                },
                None => {
                    assert forall|j: int| s <= j < end implies bytes[j] != 10 by {
                        lemma_next(bytes, s, j);
                    }
                    lemma_feeds_grow(bytes, s, end);
                },
            }
        }
    }
}

/// Where a line begins is a place in that line, in its first column.
pub proof fn lemma_line_start_is_found(bytes: Seq<u8>, line: nat)
    requires
        line >= 1,
    ensures
        line_start(bytes, line) matches Some(s) ==> position_of(bytes, s as nat) == (line, 0nat),
{
    lemma_line_begins(bytes, line);
    if let Some(s) = line_start(bytes, line) {
        lemma_position(bytes, s as nat, s - 1);
    }
}

} // verus!
