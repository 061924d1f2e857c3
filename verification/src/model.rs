//! The mathematical model of a seeker: what it holds, and what one search
//! does to it.

use crate::seeker::Dir;
use vstd::prelude::*;

verus! {

/// What a seeker is, as far as its searches are concerned.
pub struct SeekerView {
    /// The bytes of the stream.
    pub stream: Seq<u8>,
    /// The longest pattern that can be sought.
    pub capacity: nat,
    /// The first offset that forward searches have not consumed yet.
    pub lpos: nat,
    /// The last offset that backward searches have not consumed yet.
    pub rpos: nat,
    /// Nothing is left to find forwards.
    pub forward_done: bool,
    /// Nothing is left to find backwards.
    pub backward_done: bool,
}

/// How a search ends when the stream can be read.
pub enum Outcome {
    /// The pattern was found at this offset.
    Found(nat),
    /// The pattern does not occur in what was left to search.
    NotFound,
    /// The pattern is empty or longer than the capacity.
    Unsupported,
}

impl SeekerView {
    /// A seeker that has not searched yet: both boundaries stand at their
    /// edge of the stream and neither direction is exhausted.
    pub open spec fn initial(stream: Seq<u8>, capacity: nat) -> SeekerView {
        SeekerView {
            stream,
            capacity,
            lpos: 0,
            rpos: if stream.len() == 0 {
                0
            } else {
                (stream.len() - 1) as nat
            },
            forward_done: false,
            backward_done: false,
        }
    }

    /// Both boundaries lie inside the stream.
    pub open spec fn wf(self) -> bool {
        &&& self.lpos <= self.stream.len()
        &&& self.rpos < self.stream.len() || (self.stream.len() == 0 && self.rpos == 0)
    }

    /// Whether `pattern` has a length that can be sought.
    pub open spec fn supports(self, pattern: Seq<u8>) -> bool {
        1 <= pattern.len() <= self.capacity
    }

    /// Whether the direction `dir` is exhausted.
    pub open spec fn exhausted(self, dir: Dir) -> bool {
        match dir {
            Dir::Start => self.forward_done,
            Dir::End => self.backward_done,
        }
    }

    /// The same seeker with the direction `dir` exhausted.
    pub open spec fn exhaust(self, dir: Dir) -> SeekerView {
        match dir {
            Dir::Start => SeekerView { forward_done: true, ..self },
            Dir::End => SeekerView { backward_done: true, ..self },
        }
    }

    /// The same seeker with both directions exhausted.
    pub open spec fn exhaust_both(self) -> SeekerView {
        SeekerView { forward_done: true, backward_done: true, ..self }
    }

    /// Whether a search for `pattern` in the direction `dir` has to read
    /// the stream: the length is supported, the direction is not exhausted,
    /// and what is left to search has room for the pattern.
    pub open spec fn reads_stream(self, pattern: Seq<u8>, dir: Dir) -> bool {
        &&& self.supports(pattern)
        &&& !self.exhausted(dir)
        &&& pattern.len() <= self.stream.len()
        &&& pattern.len() < self.stream.len() ==> match dir {
            Dir::Start => self.lpos + pattern.len() <= self.stream.len(),
            Dir::End => pattern.len() <= self.rpos + 1,
        }
    }

    /// One search for `pattern` in the direction `dir`: the seeker after
    /// it, and how it ends.
    ///
    /// A pattern of unsupported length changes nothing. An exhausted
    /// direction stays exhausted. A pattern as long as the stream is
    /// compared with the whole stream, whatever the boundaries are: a match
    /// consumes the stream and exhausts both directions. Otherwise a forward
    /// search finds the first occurrence at or after `lpos` and moves `lpos`
    /// behind it, and a backward search finds the last occurrence that ends
    /// at or before `rpos` and moves `rpos` in front of it. A search that
    /// finds nothing exhausts its direction.
    pub open spec fn search(self, pattern: Seq<u8>, dir: Dir) -> (SeekerView, Outcome) {
        if !self.supports(pattern) {
            (self, Outcome::Unsupported)
        } else if self.exhausted(dir) {
            (self, Outcome::NotFound)
        } else if pattern.len() == self.stream.len() {
            if self.stream == pattern {
                (self.exhaust_both(), Outcome::Found(0))
            } else {
                (self.exhaust(dir), Outcome::NotFound)
            }
        } else {
            match dir {
                Dir::Start => match crate::occurrence::first_occurrence(
                    self.stream,
                    pattern,
                    self.lpos as int,
                ) {
                    Some(c) => (
                        SeekerView { lpos: (c + pattern.len()) as nat, ..self },
                        Outcome::Found(c as nat),
                    ),
                    None => (self.exhaust(dir), Outcome::NotFound),
                },
                Dir::End => match crate::occurrence::last_occurrence(
                    self.stream,
                    pattern,
                    self.rpos as int + 1,
                ) {
                    Some(c) => (
                        if c == 0 {
                            self.exhaust(dir)
                        } else {
                            SeekerView { rpos: (c - 1) as nat, ..self }
                        },
                        Outcome::Found(c as nat),
                    ),
                    None => (self.exhaust(dir), Outcome::NotFound),
                },
            }
        }
    }

    /// The seeker after `n` searches for `pattern` in the direction `dir`.
    pub open spec fn after(self, pattern: Seq<u8>, dir: Dir, n: nat) -> SeekerView
        decreases n,
    {
        if n == 0 {
            self
        } else {
            self.after(pattern, dir, (n - 1) as nat).search(pattern, dir).0
        }
    }

    /// `n` searches for `pattern` in the direction `dir`, of which only the
    /// last result is kept.
    pub open spec fn search_nth(self, pattern: Seq<u8>, dir: Dir, n: nat) -> (
        SeekerView,
        Outcome,
    ) {
        self.after(pattern, dir, (n - 1) as nat).search(pattern, dir)
    }
}

/// Only a search that has to read the stream finds anything.
pub proof fn lemma_found_reads_stream(v: SeekerView, pattern: Seq<u8>, dir: Dir)
    requires
        v.search(pattern, dir).1 is Found,
    ensures
        v.reads_stream(pattern, dir),
{
    crate::occurrence::lemma_first_occurrence(v.stream, pattern, v.lpos as int);
    crate::occurrence::lemma_last_occurrence(v.stream, pattern, v.rpos as int + 1);
}

/// A search that fails leaves a seeker on which the same search fails in
/// the same way and changes nothing more.
pub proof fn lemma_failure_is_final(v: SeekerView, pattern: Seq<u8>, dir: Dir)
    requires
        !(v.search(pattern, dir).1 is Found),
    ensures
        v.search(pattern, dir).0.search(pattern, dir) == v.search(pattern, dir),
{
}

/// Once a search has failed, every later search of the same kind gives the
/// same seeker and the same failure.
pub proof fn lemma_failure_sticks(v: SeekerView, pattern: Seq<u8>, dir: Dir, k: nat, m: nat)
    requires
        k <= m,
        !(v.after(pattern, dir, k).search(pattern, dir).1 is Found),
    ensures
        v.after(pattern, dir, m).search(pattern, dir) == v.after(pattern, dir, k).search(
            pattern,
            dir,
        ),
    decreases m,
{
    if k < m {
        lemma_failure_sticks(v, pattern, dir, k, (m - 1) as nat);
        lemma_failure_is_final(v.after(pattern, dir, k), pattern, dir);
    }
}

} // verus!
