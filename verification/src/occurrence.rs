//! Where a pattern occurs in a sequence of bytes.
//!
//! Everything here is ghost code: the searches of the seeker are stated
//! over these functions, and the lemmas connect the recursive definitions
//! with their reading in quantifiers.

use vstd::prelude::*;

verus! {

/// `pattern` occurs in `stream` at offset `at`: the `pattern.len()` bytes
/// that start at `at` lie inside the stream and equal the pattern.
pub open spec fn occurs_at(stream: Seq<u8>, pattern: Seq<u8>, at: int) -> bool {
    &&& 0 <= at
    &&& at + pattern.len() <= stream.len()
    &&& stream.subrange(at, at + pattern.len()) == pattern
}

/// No occurrence of `pattern` starts at an offset in `lo..hi`.
pub open spec fn none_in(stream: Seq<u8>, pattern: Seq<u8>, lo: int, hi: int) -> bool {
    forall|j: int| lo <= j < hi ==> !occurs_at(stream, pattern, j)
}

/// The empty pattern occurs at every offset up to the end of the stream.
pub proof fn lemma_empty_occurs(stream: Seq<u8>, pattern: Seq<u8>, at: int)
    ensures
        pattern.len() == 0 && 0 <= at <= stream.len() ==> occurs_at(stream, pattern, at),
{
    if pattern.len() == 0 && 0 <= at <= stream.len() {
        assert(stream.subrange(at, at + pattern.len()) =~= pattern);
    }
}

/// The least offset `>= from` at which `pattern` occurs in `stream`.
pub open spec fn first_occurrence(stream: Seq<u8>, pattern: Seq<u8>, from: int) -> Option<int>
    decreases stream.len() - from,
{
    if from + pattern.len() > stream.len() {
        None
    } else if occurs_at(stream, pattern, from) {
        Some(from)
    } else {
        proof {
            lemma_empty_occurs(stream, pattern, from);
        }
        first_occurrence(stream, pattern, from + 1)
    }
}

/// The greatest offset at which `pattern` occurs in `stream` and ends at or
/// before `end`, that is, within `stream[..end]`.
pub open spec fn last_occurrence(stream: Seq<u8>, pattern: Seq<u8>, end: int) -> Option<int>
    decreases end,
{
    if end < pattern.len() {
        None
    } else if occurs_at(stream, pattern, end - pattern.len()) {
        Some(end - pattern.len())
    } else {
        proof {
            lemma_empty_occurs(stream, pattern, end);
        }
        last_occurrence(stream, pattern, end - 1)
    }
}

/// The occurrences of a non-empty `pattern` that a reader finds who goes
/// through `stream` from `from` on, takes each time the first occurrence
/// that starts where they stand or later, and goes on behind its last byte:
/// their offsets in the order in which they are found.
pub open spec fn occurrences_from(stream: Seq<u8>, pattern: Seq<u8>, from: int) -> Seq<int>
    decreases stream.len() - from,
{
    if pattern.len() == 0 {
        Seq::empty()
    } else {
        match first_occurrence(stream, pattern, from) {
            None => Seq::empty(),
            Some(c) => {
                proof {
                    lemma_first_occurrence(stream, pattern, from);
                }
                seq![c] + occurrences_from(stream, pattern, c + pattern.len())
            },
        }
    }
}

/// The occurrences of a non-empty `pattern` that a reader finds who goes
/// through `stream[..end]` backwards, takes each time the last occurrence
/// that ends where they stand or earlier, and goes on in front of its first
/// byte: their offsets in the order in which they are found.
pub open spec fn occurrences_before(stream: Seq<u8>, pattern: Seq<u8>, end: int) -> Seq<int>
    decreases end,
{
    if pattern.len() == 0 {
        Seq::empty()
    } else {
        match last_occurrence(stream, pattern, end) {
            None => Seq::empty(),
            Some(c) => {
                proof {
                    lemma_last_occurrence(stream, pattern, end);
                }
                seq![c] + occurrences_before(stream, pattern, c)
            },
        }
    }
}

/// An occurrence agrees with the pattern byte by byte.
pub proof fn lemma_occurrence_bytes(stream: Seq<u8>, pattern: Seq<u8>, at: int, k: int)
    requires
        occurs_at(stream, pattern, at),
        0 <= k < pattern.len(),
    ensures
        stream[at + k] == pattern[k],
{
    assert(stream.subrange(at, at + pattern.len())[k] == stream[at + k]);
}

/// No occurrence of a non-empty pattern starts where the stream does not
/// hold the first byte of the pattern.
pub proof fn lemma_none_without_first(stream: Seq<u8>, pattern: Seq<u8>, lo: int, hi: int)
    requires
        pattern.len() > 0,
        forall|j: int| lo <= j < hi && 0 <= j < stream.len() ==> stream[j] != pattern[0],
    ensures
        none_in(stream, pattern, lo, hi),
{
    assert forall|j: int| lo <= j < hi implies !occurs_at(stream, pattern, j) by {
        if occurs_at(stream, pattern, j) {
            lemma_occurrence_bytes(stream, pattern, j, 0);
        }
    }
}

/// No occurrence of a non-empty pattern ends where the stream does not
/// hold the last byte of the pattern.
pub proof fn lemma_none_without_last(stream: Seq<u8>, pattern: Seq<u8>, lo: int, hi: int)
    requires
        pattern.len() > 0,
        forall|j: int| lo <= j < hi && 0 <= j < stream.len() ==> stream[j] != pattern.last(),
    ensures
        none_in(stream, pattern, lo - pattern.len() + 1, hi - pattern.len() + 1),
{
    assert forall|j: int| lo - pattern.len() + 1 <= j < hi - pattern.len() + 1 implies !occurs_at(
        stream,
        pattern,
        j,
    ) by {
        if occurs_at(stream, pattern, j) {
            lemma_occurrence_bytes(stream, pattern, j, pattern.len() - 1);
        }
    }
}

/// What `first_occurrence` returns, read with quantifiers: the offset found
/// is an occurrence at or after `from` with none before it, and `None`
/// means that there is no occurrence at or after `from` at all.
pub proof fn lemma_first_occurrence(stream: Seq<u8>, pattern: Seq<u8>, from: int)
    ensures
        match first_occurrence(stream, pattern, from) {
            Some(c) => from <= c && occurs_at(stream, pattern, c) && none_in(
                stream,
                pattern,
                from,
                c,
            ),
            None => forall|j: int| from <= j ==> !occurs_at(stream, pattern, j),
        },
    decreases stream.len() - from,
{
    if from + pattern.len() > stream.len() {
    } else if occurs_at(stream, pattern, from) {
    } else {
        lemma_empty_occurs(stream, pattern, from);
        lemma_first_occurrence(stream, pattern, from + 1);
    }
}

/// The least occurrence at or after `from` is what `first_occurrence` returns.
pub proof fn lemma_first_occurrence_is(stream: Seq<u8>, pattern: Seq<u8>, from: int, c: int)
    requires
        from <= c,
        occurs_at(stream, pattern, c),
        none_in(stream, pattern, from, c),
    ensures
        first_occurrence(stream, pattern, from) == Some(c),
{
    lemma_first_occurrence(stream, pattern, from);
}

/// Where nothing occurs at or after `from`, `first_occurrence` is `None`.
pub proof fn lemma_first_occurrence_none(stream: Seq<u8>, pattern: Seq<u8>, from: int)
    requires
        forall|j: int| from <= j ==> !occurs_at(stream, pattern, j),
    ensures
        first_occurrence(stream, pattern, from) is None,
{
    lemma_first_occurrence(stream, pattern, from);
}

/// What `last_occurrence` returns, read with quantifiers: the offset found
/// is an occurrence that ends at or before `end` with no later one that
/// does, and `None` means that no occurrence ends at or before `end`.
pub proof fn lemma_last_occurrence(stream: Seq<u8>, pattern: Seq<u8>, end: int)
    ensures
        match last_occurrence(stream, pattern, end) {
            Some(c) => c + pattern.len() <= end && occurs_at(stream, pattern, c) && none_in(
                stream,
                pattern,
                c + 1,
                end - pattern.len() + 1,
            ),
            None => forall|j: int| j + pattern.len() <= end ==> !occurs_at(stream, pattern, j),
        },
    decreases end,
{
    if end < pattern.len() {
    } else if occurs_at(stream, pattern, end - pattern.len()) {
    } else {
        lemma_empty_occurs(stream, pattern, end);
        lemma_last_occurrence(stream, pattern, end - 1);
    }
}

/// The greatest occurrence that ends at or before `end` is what
/// `last_occurrence` returns.
pub proof fn lemma_last_occurrence_is(stream: Seq<u8>, pattern: Seq<u8>, end: int, c: int)
    requires
        c + pattern.len() <= end,
        occurs_at(stream, pattern, c),
        none_in(stream, pattern, c + 1, end - pattern.len() + 1),
    ensures
        last_occurrence(stream, pattern, end) == Some(c),
{
    lemma_last_occurrence(stream, pattern, end);
}

/// Where no occurrence ends at or before `end`, `last_occurrence` is `None`.
pub proof fn lemma_last_occurrence_none(stream: Seq<u8>, pattern: Seq<u8>, end: int)
    requires
        forall|j: int| j + pattern.len() <= end ==> !occurs_at(stream, pattern, j),
    ensures
        last_occurrence(stream, pattern, end) is None,
{
    lemma_last_occurrence(stream, pattern, end);
}

/// The offsets in `occurrences_from` are occurrences at or after `from`.
pub proof fn lemma_occurrences_from_occur(stream: Seq<u8>, pattern: Seq<u8>, from: int, i: int)
    requires
        0 <= i < occurrences_from(stream, pattern, from).len(),
    ensures
        from <= occurrences_from(stream, pattern, from)[i],
        occurs_at(stream, pattern, occurrences_from(stream, pattern, from)[i]),
    decreases stream.len() - from,
{
    lemma_first_occurrence(stream, pattern, from);
    let c = first_occurrence(stream, pattern, from)->Some_0;
    if i > 0 {
        lemma_occurrences_from_occur(stream, pattern, c + pattern.len(), i - 1);
    }
}

/// In `occurrences_from` each offset lies behind the whole of every
/// occurrence before it: the offsets increase and the occurrences do not
/// overlap.
pub proof fn lemma_occurrences_from_apart(
    stream: Seq<u8>,
    pattern: Seq<u8>,
    from: int,
    i: int,
    j: int,
)
    requires
        0 <= i < j < occurrences_from(stream, pattern, from).len(),
    ensures
        occurrences_from(stream, pattern, from)[i] + pattern.len() <= occurrences_from(
            stream,
            pattern,
            from,
        )[j],
    decreases stream.len() - from,
{
    lemma_first_occurrence(stream, pattern, from);
    let c = first_occurrence(stream, pattern, from)->Some_0;
    if i == 0 {
        lemma_occurrences_from_occur(stream, pattern, c + pattern.len(), j - 1);
    } else {
        lemma_occurrences_from_apart(stream, pattern, c + pattern.len(), i - 1, j - 1);
    }
}

/// Every occurrence at or after `from` is in `occurrences_from` or starts
/// inside an occurrence that is: the index of that one is returned.
pub proof fn lemma_occurrences_from_complete(
    stream: Seq<u8>,
    pattern: Seq<u8>,
    from: int,
    at: int,
) -> (i: int)
    requires
        pattern.len() > 0,
        from <= at,
        occurs_at(stream, pattern, at),
    ensures
        0 <= i < occurrences_from(stream, pattern, from).len(),
        occurrences_from(stream, pattern, from)[i] <= at < occurrences_from(
            stream,
            pattern,
            from,
        )[i] + pattern.len(),
    decreases stream.len() - from,
{
    lemma_first_occurrence(stream, pattern, from);
    let c = first_occurrence(stream, pattern, from)->Some_0;
    if at < c + pattern.len() {
        0
    } else {
        lemma_occurrences_from_complete(stream, pattern, c + pattern.len(), at) + 1
    }
}

/// The offsets in `occurrences_before` are occurrences that end at or
/// before `end`.
pub proof fn lemma_occurrences_before_occur(stream: Seq<u8>, pattern: Seq<u8>, end: int, i: int)
    requires
        0 <= i < occurrences_before(stream, pattern, end).len(),
    ensures
        occurrences_before(stream, pattern, end)[i] + pattern.len() <= end,
        occurs_at(stream, pattern, occurrences_before(stream, pattern, end)[i]),
    decreases end,
{
    lemma_last_occurrence(stream, pattern, end);
    let c = last_occurrence(stream, pattern, end)->Some_0;
    if i > 0 {
        lemma_occurrences_before_occur(stream, pattern, c, i - 1);
    }
}

/// In `occurrences_before` each occurrence lies in front of the whole of
/// every occurrence before it: the offsets decrease and the occurrences do
/// not overlap.
pub proof fn lemma_occurrences_before_apart(
    stream: Seq<u8>,
    pattern: Seq<u8>,
    end: int,
    i: int,
    j: int,
)
    requires
        0 <= i < j < occurrences_before(stream, pattern, end).len(),
    ensures
        occurrences_before(stream, pattern, end)[j] + pattern.len() <= occurrences_before(
            stream,
            pattern,
            end,
        )[i],
    decreases end,
{
    lemma_last_occurrence(stream, pattern, end);
    let c = last_occurrence(stream, pattern, end)->Some_0;
    if i == 0 {
        lemma_occurrences_before_occur(stream, pattern, c, j - 1);
    } else {
        lemma_occurrences_before_apart(stream, pattern, c, i - 1, j - 1);
    }
}

/// Every occurrence that ends at or before `end` is in `occurrences_before`
/// or ends inside an occurrence that is: the index of that one is returned.
pub proof fn lemma_occurrences_before_complete(
    stream: Seq<u8>,
    pattern: Seq<u8>,
    end: int,
    at: int,
) -> (i: int)
    requires
        pattern.len() > 0,
        at + pattern.len() <= end,
        occurs_at(stream, pattern, at),
    ensures
        0 <= i < occurrences_before(stream, pattern, end).len(),
        at <= occurrences_before(stream, pattern, end)[i] < at + pattern.len(),
    decreases end,
{
    lemma_last_occurrence(stream, pattern, end);
    let c = last_occurrence(stream, pattern, end)->Some_0;
    if c < at + pattern.len() {
        0
    } else {
        lemma_occurrences_before_complete(stream, pattern, c, at) + 1
    }
}

} // verus!
