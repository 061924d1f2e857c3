//! What holds of every run of searches, proved of the model that the
//! contracts of the seeker are stated in.

use crate::model::{Outcome, SeekerView};
use crate::seeker::Dir;
use vstd::prelude::*;

verus! {

/// What the search number `k`, counted from 0, reports when the searches
/// report `occurrences` one after the other and then fail.
pub open spec fn reported(occurrences: Seq<int>, k: nat) -> Outcome {
    if k < occurrences.len() {
        Outcome::Found(occurrences[k as int] as nat)
    } else {
        Outcome::NotFound
    }
}

/// The offset that a search finds is an occurrence of the pattern. Unless
/// the pattern is as long as the stream, it is forwards the first
/// occurrence at or after `lpos`, and backwards the last occurrence that
/// ends at or before `rpos`.
pub proof fn lemma_found_is_occurrence(v: SeekerView, pattern: Seq<u8>, dir: Dir, offset: nat)
    requires
        v.search(pattern, dir).1 == Outcome::Found(offset),
    ensures
        crate::occurrence::occurs_at(v.stream, pattern, offset as int),
        pattern.len() != v.stream.len() && dir is Start ==> v.lpos <= offset
            && crate::occurrence::none_in(v.stream, pattern, v.lpos as int, offset as int),
        pattern.len() != v.stream.len() && dir is End ==> offset + pattern.len() <= v.rpos + 1
            && crate::occurrence::none_in(
            v.stream,
            pattern,
            offset as int + 1,
            v.rpos as int + 2 - pattern.len(),
        ),
{
    crate::occurrence::lemma_first_occurrence(v.stream, pattern, v.lpos as int);
    crate::occurrence::lemma_last_occurrence(v.stream, pattern, v.rpos as int + 1);
    if pattern.len() == v.stream.len() {
        assert(v.stream.subrange(0, pattern.len() as int) =~= v.stream);
    }
}

/// A search in a direction that was not exhausted finds nothing only where
/// there is nothing to find: the pattern is as long as the stream and is not
/// the stream, or it is of another length and forwards no occurrence starts
/// at or after `lpos`, backwards none ends at or before `rpos`.
pub proof fn lemma_not_found_is_absent(v: SeekerView, pattern: Seq<u8>, dir: Dir)
    requires
        v.search(pattern, dir).1 is NotFound,
        !v.exhausted(dir),
    ensures
        pattern.len() == v.stream.len() ==> v.stream != pattern,
        pattern.len() != v.stream.len() && dir is Start ==> forall|j: int|
            v.lpos <= j ==> !crate::occurrence::occurs_at(v.stream, pattern, j),
        pattern.len() != v.stream.len() && dir is End ==> forall|j: int|
            j + pattern.len() <= v.rpos + 1 ==> !crate::occurrence::occurs_at(v.stream, pattern, j),
{
    crate::occurrence::lemma_first_occurrence(v.stream, pattern, v.lpos as int);
    crate::occurrence::lemma_last_occurrence(v.stream, pattern, v.rpos as int + 1);
}

/// `n + 1` searches are one search followed by `n` searches.
pub proof fn lemma_after_shift(v: SeekerView, pattern: Seq<u8>, dir: Dir, n: nat)
    ensures
        v.after(pattern, dir, n + 1) == v.search(pattern, dir).0.after(pattern, dir, n),
    decreases n,
{
    let next = v.search(pattern, dir).0;
    if n == 0 {
        assert(v.after(pattern, dir, 1) == v.after(pattern, dir, 0).search(pattern, dir).0);
    } else {
        lemma_after_shift(v, pattern, dir, (n - 1) as nat);
        assert(v.after(pattern, dir, n + 1) == v.after(pattern, dir, n).search(pattern, dir).0);
        assert(next.after(pattern, dir, n) == next.after(pattern, dir, (n - 1) as nat).search(
            pattern,
            dir,
        ).0);
    }
}

/// Searching forwards again and again reports the occurrences of the
/// pattern from left to right, each the first one behind the one before it,
/// and fails once there is none left: search number `k`, counted from 0,
/// reports entry `k` of `occurrences_from`.
///
/// What `occurrences_from` holds is stated by `lemma_occurrences_from_occur`,
/// `lemma_occurrences_from_apart` and `lemma_occurrences_from_complete`.
///
/// A pattern as long as the stream is compared with the whole stream even
/// after the boundary has moved, so for such a pattern the boundary has to
/// stand at the start, as it does in a new seeker.
pub proof fn lemma_forward_enumerates(v: SeekerView, pattern: Seq<u8>, k: nat)
    requires
        v.wf(),
        v.supports(pattern),
        !v.forward_done,
        pattern.len() == v.stream.len() ==> v.lpos == 0,
    ensures
        v.after(pattern, Dir::Start, k).search(pattern, Dir::Start).1 == reported(
            crate::occurrence::occurrences_from(v.stream, pattern, v.lpos as int),
            k,
        ),
    decreases k,
{
    let dir = Dir::Start;
    let occ = crate::occurrence::occurrences_from(v.stream, pattern, v.lpos as int);
    let (next, outcome) = v.search(pattern, dir);
    crate::occurrence::lemma_first_occurrence(v.stream, pattern, v.lpos as int);
    if pattern.len() == v.stream.len() {
        assert(v.stream.subrange(0, pattern.len() as int) =~= v.stream);
        crate::occurrence::lemma_first_occurrence(v.stream, pattern, 1);
        assert(crate::occurrence::occurrences_from(v.stream, pattern, pattern.len() as int).len()
            == 0);
    }
    match outcome {
        Outcome::Found(c) => {
            let rest = crate::occurrence::occurrences_from(
                v.stream,
                pattern,
                c as int + pattern.len(),
            );
            assert(occ == seq![c as int] + rest);
            if k > 0 {
                lemma_after_shift(v, pattern, dir, (k - 1) as nat);
                if pattern.len() == v.stream.len() {
                    crate::model::lemma_failure_sticks(next, pattern, dir, 0, (k - 1) as nat);
                } else {
                    lemma_forward_enumerates(next, pattern, (k - 1) as nat);
                    assert(reported(occ, k) == reported(rest, (k - 1) as nat)) by {
                        if k < occ.len() {
                            assert(occ[k as int] == rest[k - 1]);
                        }
                    }
                }
            }
        },
        _ => {
            assert(occ.len() == 0);
            crate::model::lemma_failure_sticks(v, pattern, dir, 0, k);
        },
    }
}

/// Searching backwards again and again reports the occurrences of the
/// pattern from right to left, each the last one in front of the one before
/// it, and fails once there is none left: search number `k`, counted from
/// 0, reports entry `k` of `occurrences_before`.
///
/// What `occurrences_before` holds is stated by
/// `lemma_occurrences_before_occur`, `lemma_occurrences_before_apart` and
/// `lemma_occurrences_before_complete`.
///
/// A pattern as long as the stream is compared with the whole stream even
/// after the boundary has moved, so for such a pattern the boundary has to
/// stand at the end, as it does in a new seeker.
pub proof fn lemma_backward_enumerates(v: SeekerView, pattern: Seq<u8>, k: nat)
    requires
        v.wf(),
        v.supports(pattern),
        !v.backward_done,
        pattern.len() == v.stream.len() ==> v.rpos + 1 == v.stream.len(),
    ensures
        v.after(pattern, Dir::End, k).search(pattern, Dir::End).1 == reported(
            crate::occurrence::occurrences_before(v.stream, pattern, v.rpos as int + 1),
            k,
        ),
    decreases k,
{
    let dir = Dir::End;
    let occ = crate::occurrence::occurrences_before(v.stream, pattern, v.rpos as int + 1);
    let (next, outcome) = v.search(pattern, dir);
    crate::occurrence::lemma_last_occurrence(v.stream, pattern, v.rpos as int + 1);
    if pattern.len() == v.stream.len() {
        assert(v.stream.subrange(0, pattern.len() as int) =~= v.stream);
        crate::occurrence::lemma_last_occurrence(v.stream, pattern, v.rpos as int);
    }
    match outcome {
        Outcome::Found(c) => {
            let rest = crate::occurrence::occurrences_before(v.stream, pattern, c as int);
            assert(occ == seq![c as int] + rest);
            if c == 0 {
                assert(rest.len() == 0);
            }
            if k > 0 {
                lemma_after_shift(v, pattern, dir, (k - 1) as nat);
                if c == 0 {
                    crate::model::lemma_failure_sticks(next, pattern, dir, 0, (k - 1) as nat);
                } else {
                    lemma_backward_enumerates(next, pattern, (k - 1) as nat);
                    assert(reported(occ, k) == reported(rest, (k - 1) as nat)) by {
                        if k < occ.len() {
                            assert(occ[k as int] == rest[k - 1]);
                        }
                    }
                }
            }
        },
        _ => {
            assert(occ.len() == 0);
            crate::model::lemma_failure_sticks(v, pattern, dir, 0, k);
        },
    }
}

/// Seeking the `n`-th occurrence is searching `n` times and keeping the
/// last result: the seeker is left as `n` searches leave it, and the result
/// is that of the last of them.
pub proof fn lemma_search_nth_is_n_searches(v: SeekerView, pattern: Seq<u8>, dir: Dir, n: nat)
    requires
        n >= 1,
    ensures
        v.search_nth(pattern, dir, n).0 == v.after(pattern, dir, n),
        v.search_nth(pattern, dir, n).1 == v.after(pattern, dir, (n - 1) as nat).search(
            pattern,
            dir,
        ).1,
{
}

/// Seeking the `n`-th occurrence forwards reports entry `n - 1` of
/// `occurrences_from`, as `n` single searches do of which the last result
/// is kept.
pub proof fn lemma_search_nth_forward(v: SeekerView, pattern: Seq<u8>, n: nat)
    requires
        v.wf(),
        v.supports(pattern),
        !v.forward_done,
        pattern.len() == v.stream.len() ==> v.lpos == 0,
        n >= 1,
    ensures
        v.search_nth(pattern, Dir::Start, n).1 == reported(
            crate::occurrence::occurrences_from(v.stream, pattern, v.lpos as int),
            (n - 1) as nat,
        ),
        v.search_nth(pattern, Dir::Start, n).0 == v.after(pattern, Dir::Start, n),
{
    lemma_forward_enumerates(v, pattern, (n - 1) as nat);
}

/// Seeking the `n`-th occurrence backwards reports entry `n - 1` of
/// `occurrences_before`, as `n` single searches do of which the last result
/// is kept.
pub proof fn lemma_search_nth_backward(v: SeekerView, pattern: Seq<u8>, n: nat)
    requires
        v.wf(),
        v.supports(pattern),
        !v.backward_done,
        pattern.len() == v.stream.len() ==> v.rpos + 1 == v.stream.len(),
        n >= 1,
    ensures
        v.search_nth(pattern, Dir::End, n).1 == reported(
            crate::occurrence::occurrences_before(v.stream, pattern, v.rpos as int + 1),
            (n - 1) as nat,
        ),
        v.search_nth(pattern, Dir::End, n).0 == v.after(pattern, Dir::End, n),
{
    lemma_backward_enumerates(v, pattern, (n - 1) as nat);
}

/// A pattern of unsupported length is refused whatever the seeker has done
/// before, and the seeker stays as it is.
pub proof fn lemma_unsupported_length(v: SeekerView, pattern: Seq<u8>, dir: Dir)
    requires
        pattern.len() == 0 || pattern.len() > v.capacity,
    ensures
        v.search(pattern, dir) == (v, Outcome::Unsupported),
{
}

/// A direction that is exhausted stays exhausted through every search, in
/// either direction and for any pattern, and a search of supported length in
/// that direction finds nothing and changes nothing.
pub proof fn lemma_exhaustion_lasts(
    v: SeekerView,
    dir: Dir,
    pattern: Seq<u8>,
    other: Seq<u8>,
    other_dir: Dir,
)
    requires
        v.exhausted(dir),
    ensures
        v.search(other, other_dir).0.exhausted(dir),
        v.supports(pattern) ==> v.search(pattern, dir) == (v, Outcome::NotFound),
{
}

/// A search that finds nothing exhausts its direction.
pub proof fn lemma_not_found_exhausts(v: SeekerView, pattern: Seq<u8>, dir: Dir)
    requires
        v.search(pattern, dir).1 is NotFound,
    ensures
        v.search(pattern, dir).0.exhausted(dir),
{
}

/// A search leaves the other direction as it was, its boundary and whether
/// it is exhausted, unless it found a pattern as long as the stream.
pub proof fn lemma_directions_independent(v: SeekerView, pattern: Seq<u8>)
    requires
        !(v.search(pattern, Dir::Start).1 is Found && pattern.len() == v.stream.len()),
        !(v.search(pattern, Dir::End).1 is Found && pattern.len() == v.stream.len()),
    ensures
        v.search(pattern, Dir::Start).0.rpos == v.rpos,
        v.search(pattern, Dir::Start).0.backward_done == v.backward_done,
        v.search(pattern, Dir::End).0.lpos == v.lpos,
        v.search(pattern, Dir::End).0.forward_done == v.forward_done,
{
}

/// A pattern as long as the stream is found at offset 0 if it is the
/// stream, and not found if it is not.
pub proof fn lemma_whole_stream(v: SeekerView, pattern: Seq<u8>, dir: Dir)
    requires
        v.supports(pattern),
        !v.exhausted(dir),
        pattern.len() == v.stream.len(),
    ensures
        v.stream == pattern ==> v.search(pattern, dir).1 == Outcome::Found(0),
        v.stream != pattern ==> v.search(pattern, dir).1 == Outcome::NotFound,
{
}

/// In an empty stream no pattern of supported length is found.
pub proof fn lemma_empty_stream(v: SeekerView, pattern: Seq<u8>, dir: Dir)
    requires
        v.stream.len() == 0,
        v.supports(pattern),
    ensures
        v.search(pattern, dir).1 == Outcome::NotFound,
{
    crate::occurrence::lemma_first_occurrence(v.stream, pattern, v.lpos as int);
    crate::occurrence::lemma_last_occurrence(v.stream, pattern, v.rpos as int + 1);
}

/// A search keeps the stream and the capacity, and keeps both boundaries
/// inside the stream.
pub proof fn lemma_search_keeps_wf(v: SeekerView, pattern: Seq<u8>, dir: Dir)
    requires
        v.wf(),
    ensures
        v.search(pattern, dir).0.wf(),
        v.search(pattern, dir).0.stream == v.stream,
        v.search(pattern, dir).0.capacity == v.capacity,
{
    crate::occurrence::lemma_first_occurrence(v.stream, pattern, v.lpos as int);
    crate::occurrence::lemma_last_occurrence(v.stream, pattern, v.rpos as int + 1);
}

/// A seeker that is new, or that was reset, and is then only searched
/// forwards for one pattern of supported length reports the occurrences of
/// the pattern in the whole stream from left to right, and then fails.
pub proof fn lemma_new_seeker_forward(stream: Seq<u8>, capacity: nat, pattern: Seq<u8>, k: nat)
    requires
        1 <= pattern.len() <= capacity,
    ensures
        SeekerView::initial(stream, capacity).after(pattern, Dir::Start, k).search(
            pattern,
            Dir::Start,
        ).1 == reported(crate::occurrence::occurrences_from(stream, pattern, 0), k),
{
    lemma_forward_enumerates(SeekerView::initial(stream, capacity), pattern, k);
}

/// A seeker that is new, or that was reset, and is then only searched
/// backwards for one pattern of supported length reports the occurrences of
/// the pattern in the whole stream from right to left, and then fails.
pub proof fn lemma_new_seeker_backward(stream: Seq<u8>, capacity: nat, pattern: Seq<u8>, k: nat)
    requires
        1 <= pattern.len() <= capacity,
    ensures
        SeekerView::initial(stream, capacity).after(pattern, Dir::End, k).search(
            pattern,
            Dir::End,
        ).1 == reported(
            crate::occurrence::occurrences_before(stream, pattern, stream.len() as int),
            k,
        ),
{
    let v = SeekerView::initial(stream, capacity);
    if stream.len() == 0 {
        assert(crate::occurrence::occurrences_before(stream, pattern, 1).len() == 0) by {
            crate::occurrence::lemma_last_occurrence(stream, pattern, 1);
        }
        assert(crate::occurrence::occurrences_before(stream, pattern, 0).len() == 0);
    }
    lemma_backward_enumerates(v, pattern, k);
}

} // verus!
