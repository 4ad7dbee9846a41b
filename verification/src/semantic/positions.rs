//! Lines and columns in a source text. Offsets and columns count bytes, lines count from 1.

use vstd::prelude::*;
use vstd::utf8::encode_utf8;

verus! {

/// The first line feed at or after `from`.
pub open spec fn next_break(bytes: Seq<u8>, from: int) -> Option<int>
    decreases bytes.len() - from,
{
    if from < 0 || from >= bytes.len() {
        None
    } else if bytes[from] == 10 {
        Some(from)
    } else {
        next_break(bytes, from + 1)
    }
}

/// The offset at which a line begins; `None` where there is no such line.
pub open spec fn line_start(bytes: Seq<u8>, line: nat) -> Option<int>
    decreases line,
{
    if line == 0 {
        None
    } else if line == 1 {
        Some(0)
    } else {
        match line_start(bytes, (line - 1) as nat) {
            Some(s) => match next_break(bytes, s) {
                Some(i) => Some(i + 1),
                None => None,
            },
            None => None,
        }
    }
}

/// The number of line feeds.
pub open spec fn breaks_in(bytes: Seq<u8>) -> nat
    decreases bytes.len(),
{
    if bytes.len() == 0 {
        0
    } else if bytes.last() == 10 {
        breaks_in(bytes.drop_last()) + 1
    } else {
        breaks_in(bytes.drop_last())
    }
}

/// Where the last line of some bytes begins.
pub open spec fn last_line(bytes: Seq<u8>) -> nat
    decreases bytes.len(),
{
    if bytes.len() == 0 || bytes.last() == 10 {
        bytes.len()
    } else {
        last_line(bytes.drop_last())
    }
}

/// The bytes before an offset; all of them where it lies beyond the end.
pub open spec fn bytes_before(bytes: Seq<u8>, offset: nat) -> Seq<u8> {
    if offset <= bytes.len() {
        bytes.take(offset as int)
    } else {
        bytes
    }
}

/// The line and the column of an offset.
pub open spec fn position_of(bytes: Seq<u8>, offset: nat) -> (nat, nat) {
    let before = bytes_before(bytes, offset);
    (breaks_in(before) + 1, (before.len() - last_line(before)) as nat)
}

/// A line feed that is found comes first.
proof fn lemma_next_break(bytes: Seq<u8>, from: int, at: int)
    requires
        0 <= from <= at <= bytes.len(),
        forall|j: int| from <= j < at ==> bytes[j] != 10,
    ensures
        at < bytes.len() && bytes[at] == 10 ==> next_break(bytes, from) == Some(at),
        at == bytes.len() ==> next_break(bytes, from) is None,
    decreases at - from,
{
    if from < at {
        lemma_next_break(bytes, from + 1, at);
    }
}

/// Where one line is missing, so are all that follow.
proof fn lemma_no_line(bytes: Seq<u8>, line: nat, later: nat)
    requires
        line >= 1,
        line <= later,
        line_start(bytes, line) is None,
    ensures
        line_start(bytes, later) is None,
    decreases later,
{
    if line < later {
        lemma_no_line(bytes, line, (later - 1) as nat);
    }
}

/// A line does not begin before as many bytes as there are lines before it.
pub proof fn lemma_line_bound(bytes: Seq<u8>, line: nat)
    ensures
        line_start(bytes, line) matches Some(s) ==> line <= s + 1,
    decreases line,
{
    if line > 1 {
        lemma_line_bound(bytes, (line - 1) as nat);
        lemma_line_start_bound(bytes, (line - 1) as nat);
        match line_start(bytes, (line - 1) as nat) {
            Some(s) => {
                lemma_next_break_bound(bytes, s);
            },
            None => {},
        }
    }
}

/// A line begins inside the text or at its end.
pub proof fn lemma_line_start_bound(bytes: Seq<u8>, line: nat)
    ensures
        line_start(bytes, line) matches Some(s) ==> 0 <= s <= bytes.len(),
    decreases line,
{
    if line > 1 {
        lemma_line_start_bound(bytes, (line - 1) as nat);
        match line_start(bytes, (line - 1) as nat) {
            Some(s) => {
                lemma_next_break_bound(bytes, s);
            },
            None => {},
        }
    }
}

proof fn lemma_next_break_bound(bytes: Seq<u8>, from: int)
    ensures
        next_break(bytes, from) matches Some(i) ==> from <= i < bytes.len(),
    decreases bytes.len() - from,
{
    if 0 <= from < bytes.len() && bytes[from] != 10 {
        lemma_next_break_bound(bytes, from + 1);
    }
}

/// The offset at which a line begins.
pub fn line_to_offset(source: &str, line: usize) -> (r: Option<usize>)
    ensures
        match line_start(encode_utf8(source@), line as nat) {
            Some(s) => r == Some(s as usize) && 0 <= s <= encode_utf8(source@).len()
                && encode_utf8(source@).len() <= usize::MAX,
            None => r is None,
        },
{
    if line == 0 {
        return None;
    }
    let bytes = source.as_bytes();
    let count: usize = bytes.len();
    let ghost all = encode_utf8(source@);
    assert(bytes@ == all);
    let mut current: usize = 1;
    let mut start: usize = 0;
    let mut i: usize = 0;
    while current < line
        invariant
            bytes@ == all,
            all == encode_utf8(source@),
            count == all.len(),
            1 <= current <= line,
            start <= i <= all.len(),
            line_start(all, current as nat) == Some(start as int),
            forall|j: int| start <= j < i ==> all[j] != 10,
        decreases line - current, all.len() - i,
    {
        if i == count {
            proof {
                lemma_next_break(all, start as int, i as int);
                assert(line_start(all, (current + 1) as nat) is None);
                lemma_no_line(all, (current + 1) as nat, line as nat);
            }
            return None;
        }
        if bytes[i] == 10 {
            proof {
                lemma_next_break(all, start as int, i as int);
                assert(line_start(all, (current + 1) as nat) == Some(i + 1));
            }
            current += 1;
            start = i + 1;
        }
        i += 1;
    }
    Some(start)
}

/// The line and the column of an offset. An offset beyond the end counts as the end.
pub fn offset_to_line_col(source: &str, offset: usize) -> (r: (usize, usize))
    requires
        encode_utf8(source@).len() <= isize::MAX,
    ensures
        (r.0 as nat, r.1 as nat) == position_of(encode_utf8(source@), offset as nat),
{
    let bytes = source.as_bytes();
    let ghost all = encode_utf8(source@);
    assert(bytes@ == all);
    let end: usize = if offset <= bytes.len() {
        offset
    } else {
        bytes.len()
    };
    let mut breaks: usize = 0;
    let mut begin: usize = 0;
    let mut i: usize = 0;
    assert(all.take(0) =~= Seq::<u8>::empty());
    while i < end
        invariant
            bytes@ == all,
            i <= end <= all.len(),
            begin <= i,
            breaks <= i,
            breaks == breaks_in(all.take(i as int)),
            begin == last_line(all.take(i as int)),
        decreases end - i,
    {
        assert(all.take(i + 1).drop_last() =~= all.take(i as int));
        assert(all.take(i + 1).last() == all[i as int]);
        if bytes[i] == 10 {
            breaks += 1;
            begin = i + 1;
        }
        i += 1;
    }
    proof {
        if offset > all.len() {
            assert(all.take(all.len() as int) =~= all);
        }
    }
    (breaks + 1, end - begin)
}

/// Some bytes without a line feed after their last line begins.
proof fn lemma_last_line(bytes: Seq<u8>)
    ensures
        last_line(bytes) <= bytes.len(),
        forall|j: int| last_line(bytes) <= j < bytes.len() ==> bytes[j] != 10,
        last_line(bytes) > 0 ==> bytes[last_line(bytes) - 1] == 10,
    decreases bytes.len(),
{
    if bytes.len() > 0 && bytes.last() != 10 {
        let init = bytes.drop_last();
        lemma_last_line(init);
        assert forall|j: int| last_line(bytes) <= j < bytes.len() implies bytes[j] != 10 by {
            if j < init.len() {
                assert(init[j] == bytes[j]);
            }
        }
    }
}

/// Counting stops at the line that an offset lies on: the line that the position of an offset names
/// begins at the offset less the column.
pub proof fn lemma_position_round_trip(bytes: Seq<u8>, offset: nat)
    requires
        offset <= bytes.len(),
    ensures
        line_start(bytes, position_of(bytes, offset).0) == Some(
            offset - position_of(bytes, offset).1,
        ),
        position_of(bytes, offset).1 <= offset,
        1 <= position_of(bytes, offset).0 <= offset + 1,
    decreases offset,
{
    let before = bytes.take(offset as int);
    lemma_last_line(before);
    if offset > 0 {
        let shorter = bytes.take(offset - 1);
        assert(before.drop_last() =~= shorter);
        assert(before.last() == bytes[offset - 1]);
        lemma_position_round_trip(bytes, (offset - 1) as nat);
        if bytes[offset - 1] == 10 {
            lemma_last_line(shorter);
            let start = last_line(shorter) as int;
            assert forall|j: int| start <= j < offset - 1 implies bytes[j] != 10 by {
                assert(shorter[j] == bytes[j]);
            }
            lemma_next_break(bytes, start, offset - 1);
        }
    }
}

} // verus!
