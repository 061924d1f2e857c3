//! The seeker: a bounded window that moves over a stream in search of a
//! pattern, from either end.

use crate::error::{Error, ErrorKind};
use crate::model::{Outcome, SeekerView};
use crate::stream::ByteStream;
use vstd::prelude::*;

verus! {

/// The capacity of a seeker that is made without one.
pub const DEFAULT_CHUNK_SIZE: usize = 1024;

/// The end of the stream from which a search starts.
#[derive(Clone, Copy, Debug)]
pub enum Dir {
    /// From the start of the stream towards its end.
    Start,
    /// From the end of the stream towards its start.
    End,
}

#[derive(Clone, Copy, Debug)]
struct State {
    lpos: usize,
    rpos: usize,
    ldone: bool,
    rdone: bool,
}

/// Seeker that can seek the occurrences of a given byte slice within a stream of bytes.
///
/// The `ByteSeeker` reads one window of the stream at a time into an internal
/// buffer and looks there for the first byte of the pattern, or for its last
/// byte when it seeks backwards; each candidate is then read again from the
/// stream and compared in full, so that an occurrence may lie across two
/// windows. The `capacity` is the size of the window and the length of the
/// longest pattern that can be sought; it defaults to `1024`.
///
/// The seeker is stateful: each successful search moves the boundary of its
/// direction past the occurrence, so that the next search continues there,
/// and a search that finds nothing exhausts its direction until `reset`.
#[derive(Debug)]
pub struct ByteSeeker<'a, S: ByteStream> {
    inner: &'a mut S,
    buf: Vec<u8>,
    len: usize,
    cap: usize,
    state: State,
}

impl<'a, S: ByteStream> View for ByteSeeker<'a, S> {
    type V = SeekerView;

    closed spec fn view(&self) -> SeekerView {
        SeekerView {
            stream: self.inner@,
            capacity: self.cap as nat,
            lpos: self.state.lpos as nat,
            rpos: self.state.rpos as nat,
            forward_done: self.state.ldone,
            backward_done: self.state.rdone,
        }
    }
}

impl<'a, S: ByteStream> ByteSeeker<'a, S> {
    /// The seeker knows the length of its stream, its boundaries lie inside
    /// the stream, and its window buffer is no longer than its capacity.
    pub closed spec fn wf(&self) -> bool {
        &&& self.len == self.inner@.len()
        &&& self.buf@.len() <= self.cap
        &&& self@.wf()
    }

    /// The offset at which the cursor of the underlying stream stands.
    pub closed spec fn stream_position(&self) -> nat {
        self.inner.position()
    }

    /// The number of operations that the underlying stream has performed.
    pub closed spec fn stream_accesses(&self) -> nat {
        self.inner.accesses()
    }

    /// Whether the reads of the underlying stream always succeed.
    pub closed spec fn stream_reliable(&self) -> bool {
        self.inner.reliable()
    }

    /// The error with which a read of the underlying stream last failed.
    pub closed spec fn stream_error(&self) -> Option<std::io::Error> {
        self.inner.last_error()
    }

    /// The bytes that the window buffer holds.
    pub closed spec fn window(&self) -> Seq<u8> {
        self.buf@
    }

    /// What a search for `pattern` in the direction `dir` that returned `r`
    /// has done to the seeker `pre`, of which it left `post`.
    ///
    /// Unless the stream failed, the seeker and the result are those of
    /// [`SeekerView::search`]. The stream can fail only where the search has
    /// to read it and its reads are not reliable; the seeker is then as it
    /// was, and the error is the one that the stream gave. A search accesses
    /// the stream if and only if it has to read it; one that has not leaves
    /// the stream's cursor where it stood, and one that finds the pattern
    /// leaves it behind the occurrence.
    pub open spec fn searched(
        pre: Self,
        post: Self,
        pattern: Seq<u8>,
        dir: Dir,
        r: Result<usize, Error>,
    ) -> bool {
        &&& post.stream_reliable() == pre.stream_reliable()
        &&& pre@.reads_stream(pattern, dir) ==> post.stream_accesses() > pre.stream_accesses()
        &&& !pre@.reads_stream(pattern, dir) ==> post.stream_accesses() == pre.stream_accesses()
        &&& !pre@.reads_stream(pattern, dir) ==> post.stream_position() == pre.stream_position()
        &&& r matches Ok(offset) ==> post.stream_position() == offset + pattern.len()
        &&& match r {
            Ok(offset) => pre@.search(pattern, dir) == (post@, Outcome::Found(offset as nat)),
            Err(e) => match e.spec_kind() {
                ErrorKind::ByteNotFound => pre@.search(pattern, dir) == (post@, Outcome::NotFound),
                ErrorKind::UnsupportedLength => pre@.search(pattern, dir) == (
                    post@,
                    Outcome::Unsupported,
                ),
                ErrorKind::Io(err) => {
                    &&& post@ == pre@
                    &&& pre@.reads_stream(pattern, dir)
                    &&& !pre.stream_reliable()
                    &&& post.stream_error() == Some(err)
                },
            },
        }
    }

    /// What `nth` searches for `pattern` in the direction `dir`, of which
    /// the last result or the first failure `r` was returned, have done to
    /// the seeker `pre`, of which they left `post`.
    ///
    /// Unless the stream failed, the seeker and the result are those of
    /// `nth` searches of which only the last result is kept. Where the
    /// stream failed, the seeker is as some number of searches, fewer than
    /// `nth`, left it, and the error is the one that the stream gave.
    pub open spec fn searched_nth(
        pre: Self,
        post: Self,
        pattern: Seq<u8>,
        dir: Dir,
        nth: nat,
        r: Result<usize, Error>,
    ) -> bool {
        &&& post.stream_reliable() == pre.stream_reliable()
        &&& pre@.reads_stream(pattern, dir) ==> post.stream_accesses() > pre.stream_accesses()
        &&& !pre@.reads_stream(pattern, dir) ==> post.stream_accesses() == pre.stream_accesses()
        &&& !pre@.reads_stream(pattern, dir) ==> post.stream_position() == pre.stream_position()
        &&& r matches Ok(offset) ==> post.stream_position() == offset + pattern.len()
        &&& match r {
            Ok(offset) => pre@.search_nth(pattern, dir, nth) == (
                post@,
                Outcome::Found(offset as nat),
            ),
            Err(e) => match e.spec_kind() {
                ErrorKind::ByteNotFound => pre@.search_nth(pattern, dir, nth) == (
                    post@,
                    Outcome::NotFound,
                ),
                ErrorKind::UnsupportedLength => pre@.search_nth(pattern, dir, nth) == (
                    post@,
                    Outcome::Unsupported,
                ),
                ErrorKind::Io(err) => {
                    &&& !pre.stream_reliable()
                    &&& post.stream_error() == Some(err)
                    &&& exists|k: nat|
                        {
                            &&& k < nth
                            &&& post@ == #[trigger] pre@.after(pattern, dir, k)
                            &&& post@.reads_stream(pattern, dir)
                        }
                },
            },
        }
    }

    /// Creates a new `ByteSeeker` that wraps a byte stream, with the
    /// default capacity.
    pub fn new(stream: &'a mut S) -> (seeker: Self)
        ensures
            seeker.wf(),
            seeker@ == SeekerView::initial(old(stream)@, DEFAULT_CHUNK_SIZE as nat),
            seeker.stream_position() == 0,
            seeker.stream_reliable() == old(stream).reliable(),
            seeker.window().len() == if DEFAULT_CHUNK_SIZE < old(stream)@.len() {
                DEFAULT_CHUNK_SIZE as nat
            } else {
                old(stream)@.len()
            },
    {
        ByteSeeker::with_capacity(stream, DEFAULT_CHUNK_SIZE)
    }

    /// Creates a new `ByteSeeker` that wraps a byte stream, and sets the
    /// size of its window, which is also the length of the longest pattern
    /// that it can seek, to the given capacity.
    ///
    /// The length of the stream is taken once, here, and the stream is left
    /// with its cursor at the start. The window buffer is allocated here, as
    /// long as the capacity, or as the stream where that is shorter.
    pub fn with_capacity(stream: &'a mut S, cap: usize) -> (seeker: Self)
        ensures
            seeker.wf(),
            seeker@ == SeekerView::initial(old(stream)@, cap as nat),
            seeker.stream_position() == 0,
            seeker.stream_reliable() == old(stream).reliable(),
            seeker.window().len() == if cap < old(stream)@.len() {
                cap as nat
            } else {
                old(stream)@.len()
            },
    {
        let len = stream.total_length();
        stream.seek(0);

        let rpos = if len == 0 {
            0
        } else {
            len - 1
        };
        let state = State { lpos: 0, rpos, ldone: false, rdone: false };
        let window = if cap < len {
            cap
        } else {
            len
        };

        ByteSeeker { len, cap, state, inner: stream, buf: vecu8(window) }
    }

    /// Returns the length of the underlying byte stream.
    pub fn len(&self) -> (n: usize)
        ensures
            self.wf() ==> n == self@.stream.len(),
    {
        self.len
    }

    /// Returns the capacity of this `ByteSeeker`.
    pub fn capacity(&self) -> (n: usize)
        ensures
            n == self@.capacity,
    {
        self.cap
    }

    /// Resets the `ByteSeeker` to the state in which it was created, so
    /// that its next search is the first search of a new seeker over the
    /// same stream with the same capacity. The cursor of the stream is moved
    /// to the start; the window buffer is kept.
    pub fn reset(&mut self)
        requires
            old(self).wf(),
        ensures
            final(self).wf(),
            final(self)@ == SeekerView::initial(old(self)@.stream, old(self)@.capacity),
            final(self).stream_position() == 0,
            final(self).stream_reliable() == old(self).stream_reliable(),
            final(self).window() == old(self).window(),
    {
        self.inner.seek(0);

        let rpos = if self.len == 0 {
            0
        } else {
            self.len - 1
        };
        self.state = State { lpos: 0, rpos, ldone: false, rdone: false };
    }

    /// Searches for the given bytes **forwards**, and returns the offset
    /// (relative to the start of the underlying byte stream) if the given
    /// bytes were found.
    ///
    /// The first search starts at the beginning of the stream; each later one
    /// starts behind the occurrence that the one before it found.
    ///
    /// # Errors
    ///
    /// `ErrorKind::UnsupportedLength` if the given bytes are empty or longer
    /// than the capacity, `ErrorKind::ByteNotFound` if they do not occur in
    /// what is left to search, `ErrorKind::Io` if the stream could not be
    /// read.
    pub fn seek(&mut self, bytes: &[u8]) -> (r: Result<usize, Error>)
        requires
            old(self).wf(),
        ensures
            final(self).wf(),
            Self::searched(*old(self), *final(self), bytes@, Dir::Start, r),
            !old(self)@.supports(bytes@) ==> (r matches Err(e) && e.spec_kind() is UnsupportedLength),
            !old(self)@.supports(bytes@) ==> final(self)@ == old(self)@,
            !old(self)@.supports(bytes@) ==> final(self).stream_accesses() == old(
                self,
            ).stream_accesses(),
            old(self)@.supports(bytes@) && old(self)@.exhausted(Dir::Start) ==> (r matches Err(e)
                && e.spec_kind() is ByteNotFound),
            old(self)@.supports(bytes@) && old(self)@.exhausted(Dir::Start) ==> final(self)@ == old(self)@,
            old(self)@.supports(bytes@) && old(self)@.exhausted(Dir::Start) ==> final(self).stream_accesses()
                == old(self).stream_accesses(),
            (r matches Err(e) && e.spec_kind() is ByteNotFound) ==> final(self)@.exhausted(Dir::Start),
    {
        self.buf_seek(bytes, Dir::Start)
    }

    /// Searches for the given bytes **backwards**, and returns the offset
    /// (relative to the start of the underlying byte stream) if the given
    /// bytes were found.
    ///
    /// The first search starts at the end of the stream; each later one
    /// starts in front of the occurrence that the one before it found.
    ///
    /// # Errors
    ///
    /// As for [`ByteSeeker::seek`].
    pub fn seek_back(&mut self, bytes: &[u8]) -> (r: Result<usize, Error>)
        requires
            old(self).wf(),
        ensures
            final(self).wf(),
            Self::searched(*old(self), *final(self), bytes@, Dir::End, r),
            !old(self)@.supports(bytes@) ==> (r matches Err(e) && e.spec_kind() is UnsupportedLength),
            !old(self)@.supports(bytes@) ==> final(self)@ == old(self)@,
            !old(self)@.supports(bytes@) ==> final(self).stream_accesses() == old(
                self,
            ).stream_accesses(),
            old(self)@.supports(bytes@) && old(self)@.exhausted(Dir::End) ==> (r matches Err(e)
                && e.spec_kind() is ByteNotFound),
            old(self)@.supports(bytes@) && old(self)@.exhausted(Dir::End) ==> final(self)@ == old(self)@,
            old(self)@.supports(bytes@) && old(self)@.exhausted(Dir::End) ==> final(self).stream_accesses()
                == old(self).stream_accesses(),
            (r matches Err(e) && e.spec_kind() is ByteNotFound) ==> final(self)@.exhausted(Dir::End),
    {
        self.buf_seek(bytes, Dir::End)
    }

    /// Seeks the nth occurrence of the given bytes **forwards**, and returns
    /// the offset (relative to the start of the underlying byte stream) if
    /// the given bytes were found.
    ///
    /// This is `nth` calls of [`ByteSeeker::seek`], of which the last result
    /// is returned, or the first failure.
    pub fn seek_nth(&mut self, bytes: &[u8], nth: usize) -> (r: Result<usize, Error>)
        requires
            old(self).wf(),
            nth >= 1,
        ensures
            final(self).wf(),
            Self::searched_nth(*old(self), *final(self), bytes@, Dir::Start, nth as nat, r),
    {
        self.buf_seek_nth(bytes, Dir::Start, nth)
    }

    /// Seeks the nth occurrence of the given bytes **backwards**, and returns
    /// the offset (relative to the start of the underlying byte stream) if
    /// the given bytes were found.
    ///
    /// This is `nth` calls of [`ByteSeeker::seek_back`], of which the last
    /// result is returned, or the first failure.
    pub fn seek_nth_back(&mut self, bytes: &[u8], nth: usize) -> (r: Result<usize, Error>)
        requires
            old(self).wf(),
            nth >= 1,
        ensures
            final(self).wf(),
            Self::searched_nth(*old(self), *final(self), bytes@, Dir::End, nth as nat, r),
    {
        self.buf_seek_nth(bytes, Dir::End, nth)
    }

    /// Searches `nth` times for the given bytes in the direction `dir` and
    /// returns the last result, or the first failure.
    #[verifier::loop_isolation(false)]
    pub fn buf_seek_nth(&mut self, bytes: &[u8], dir: Dir, nth: usize) -> (r: Result<
        usize,
        Error,
    >)
        requires
            old(self).wf(),
            nth >= 1,
        ensures
            final(self).wf(),
            Self::searched_nth(*old(self), *final(self), bytes@, dir, nth as nat, r),
    {
        let mut counter = nth;
        loop
            invariant
                self.wf(),
                1 <= counter <= nth,
                self@ == old(self)@.after(bytes@, dir, (nth - counter) as nat),
                self.stream_reliable() == old(self).stream_reliable(),
                counter == nth ==> self.stream_position() == old(self).stream_position(),
                counter == nth ==> self.stream_accesses() == old(self).stream_accesses(),
                counter < nth ==> old(self)@.reads_stream(bytes@, dir),
                counter < nth ==> self.stream_accesses() > old(self).stream_accesses(),
            decreases counter,
        {
            let ghost done = (nth - counter) as nat;
            let ghost before = self@;
            match self.buf_seek(bytes, dir) {
                Err(e) => {
                    proof {
                        if !(e.spec_kind() is Io) {
                            crate::model::lemma_failure_sticks(
                                old(self)@,
                                bytes@,
                                dir,
                                done,
                                (nth - 1) as nat,
                            );
                        }
                    }
                    return Err(e);
                },
                Ok(pos) => {
                    proof {
                        crate::model::lemma_found_reads_stream(before, bytes@, dir);
                    }
                    counter -= 1;
                    if counter == 0 {
                        return Ok(pos);
                    }
                },
            }
        }
    }

    /// Searches for the given bytes in the direction `dir`.
    ///
    /// A pattern that is empty or longer than the capacity is refused
    /// before anything else is looked at. A direction that is exhausted
    /// stays so. A pattern longer than the stream cannot occur; one as long
    /// as the stream is compared with the whole of it; a shorter one is
    /// sought window by window.
    pub fn buf_seek(&mut self, bytes: &[u8], dir: Dir) -> (r: Result<usize, Error>)
        requires
            old(self).wf(),
        ensures
            final(self).wf(),
            Self::searched(*old(self), *final(self), bytes@, dir, r),
            !old(self)@.supports(bytes@) ==> (r matches Err(e) && e.spec_kind() is UnsupportedLength),
            !old(self)@.supports(bytes@) ==> final(self)@ == old(self)@,
            !old(self)@.supports(bytes@) ==> final(self).stream_accesses() == old(
                self,
            ).stream_accesses(),
            old(self)@.supports(bytes@) && old(self)@.exhausted(dir) ==> (r matches Err(e)
                && e.spec_kind() is ByteNotFound),
            old(self)@.supports(bytes@) && old(self)@.exhausted(dir) ==> final(self)@ == old(self)@,
            old(self)@.supports(bytes@) && old(self)@.exhausted(dir) ==> final(self).stream_accesses()
                == old(self).stream_accesses(),
            (r matches Err(e) && e.spec_kind() is ByteNotFound) ==> final(self)@.exhausted(dir),
    {
        let bytes_len = bytes.len();
        if bytes_len == 0 || bytes_len > self.cap {
            return Err(Error::new(ErrorKind::UnsupportedLength));
        }
        let done = match dir {
            Dir::Start => self.state.ldone,
            Dir::End => self.state.rdone,
        };
        if done {
            return Err(Error::new(ErrorKind::ByteNotFound));
        }
        if self.len < bytes_len {
            proof {
                crate::occurrence::lemma_first_occurrence(
                    self@.stream,
                    bytes@,
                    self@.lpos as int,
                );
                crate::occurrence::lemma_last_occurrence(
                    self@.stream,
                    bytes@,
                    self@.rpos as int + 1,
                );
            }
            self.exhaust(dir);
            Err(Error::new(ErrorKind::ByteNotFound))
        } else if self.len == bytes_len {
            match self.match_in_place(0, bytes) {
                Err(e) => Err(e),
                Ok(true) => {
                    proof {
                        assert(self@.stream.subrange(0, bytes@.len() as int) =~= self@.stream);
                    }
                    self.state.ldone = true;
                    self.state.rdone = true;
                    Ok(0)
                },
                Ok(false) => {
                    proof {
                        assert(self@.stream.subrange(0, bytes@.len() as int) =~= self@.stream);
                    }
                    self.exhaust(dir);
                    Err(Error::new(ErrorKind::ByteNotFound))
                },
            }
        } else {
            match dir {
                Dir::Start => self.scan_forward(bytes),
                Dir::End => self.scan_backward(bytes),
            }
        }
    }

    /// Marks the direction `dir` as exhausted.
    fn exhaust(&mut self, dir: Dir)
        ensures
            final(self)@ == old(self)@.exhaust(dir),
            final(self).len == old(self).len,
            final(self).inner == old(self).inner,
            final(self).buf == old(self).buf,
    {
        match dir {
            Dir::Start => {
                self.state.ldone = true;
            },
            Dir::End => {
                self.state.rdone = true;
            },
        }
    }

    /// The forward search of a pattern that is shorter than the stream.
    ///
    /// Window after window is read, from the forward boundary on. Each byte
    /// of a window that equals the first byte of the pattern is a candidate,
    /// which `match_in_place` confirms or not. The first candidate that is
    /// confirmed is the result, and the boundary moves behind it.
    #[verifier::loop_isolation(false)]
    fn scan_forward(&mut self, bytes: &[u8]) -> (r: Result<usize, Error>)
        requires
            old(self).wf(),
            old(self)@.supports(bytes@),
            !old(self)@.forward_done,
            bytes@.len() < old(self)@.stream.len(),
        ensures
            final(self).wf(),
            Self::searched(*old(self), *final(self), bytes@, Dir::Start, r),
    {
        let plen = bytes.len();
        let first = bytes[0];
        let ghost stream = self.inner@;
        let ghost lpos = self.state.lpos as int;
        let mut pos = self.state.lpos;
        loop
            invariant
                self.wf(),
                self@ == old(self)@,
                self.stream_reliable() == old(self).stream_reliable(),
                lpos <= pos <= self.len,
                crate::occurrence::none_in(stream, bytes@, lpos, pos as int),
                pos > lpos ==> old(self)@.reads_stream(bytes@, Dir::Start),
                pos > lpos ==> self.stream_accesses() > old(self).stream_accesses(),
                pos == lpos ==> self.stream_position() == old(self).stream_position(),
                pos == lpos ==> self.stream_accesses() == old(self).stream_accesses(),
            decreases self.len - pos,
        {
            let remaining = self.len - pos;
            if remaining < plen {
                proof {
                    assert forall|j: int| lpos <= j implies !crate::occurrence::occurs_at(
                        stream,
                        bytes@,
                        j,
                    ) by {}
                    crate::occurrence::lemma_first_occurrence_none(stream, bytes@, lpos);
                }
                self.state.ldone = true;
                return Err(Error::new(ErrorKind::ByteNotFound));
            }
            let window = if remaining < self.cap {
                remaining
            } else {
                self.cap
            };
            let last = window == remaining;
            fit(&mut self.buf, window);
            match self.inner.read_exact_at(pos, &mut self.buf) {
                Err(e) => {
                    proof {
                        crate::error::lemma_from_io_error(e);
                    }
                    return Err(Error::from(e));
                },
                Ok(()) => {},
            }
            let mut from: usize = 0;
            while from < window
                invariant
                    self.wf(),
                    self@ == old(self)@,
                    self.stream_reliable() == old(self).stream_reliable(),
                    self.stream_accesses() > old(self).stream_accesses(),
                    from <= window,
                    self.buf@ == stream.subrange(pos as int, pos + window),
                    crate::occurrence::none_in(stream, bytes@, lpos, pos + from),
                decreases window - from,
            {
                match find_byte(&self.buf, from, first) {
                    None => {
                        proof {
                            assert forall|j: int| pos + from <= j < pos + window implies stream[j]
                                != first by {
                                assert(self.buf@[j - pos] == stream[j]);
                            }
                            crate::occurrence::lemma_none_without_first(
                                stream,
                                bytes@,
                                pos + from,
                                pos + window,
                            );
                        }
                        from = window;
                    },
                    Some(p) => {
                        proof {
                            assert forall|j: int| pos + from <= j < pos + p implies stream[j]
                                != first by {
                                assert(self.buf@[j - pos] == stream[j]);
                            }
                            crate::occurrence::lemma_none_without_first(
                                stream,
                                bytes@,
                                pos + from,
                                pos + p,
                            );
                        }
                        let cpos = pos + p;
                        match self.match_in_place(cpos, bytes) {
                            Err(e) => {
                                return Err(e);
                            },
                            Ok(true) => {
                                proof {
                                    crate::occurrence::lemma_first_occurrence_is(
                                        stream,
                                        bytes@,
                                        lpos,
                                        cpos as int,
                                    );
                                }
                                self.state.lpos = cpos + plen;
                                return Ok(cpos);
                            },
                            Ok(false) => {
                                from = p + 1;
                            },
                        }
                    },
                }
            }
            if last {
                proof {
                    assert forall|j: int| lpos <= j implies !crate::occurrence::occurs_at(
                        stream,
                        bytes@,
                        j,
                    ) by {}
                    crate::occurrence::lemma_first_occurrence_none(stream, bytes@, lpos);
                }
                self.state.ldone = true;
                return Err(Error::new(ErrorKind::ByteNotFound));
            }
            pos = pos + window;
        }
    }

    /// The backward search of a pattern that is shorter than the stream.
    ///
    /// Window after window is read, from the backward boundary down. Each
    /// byte of a window that equals the last byte of the pattern is the end
    /// of a candidate, which `match_in_place` confirms or not. The first
    /// candidate that is confirmed is the result, and the boundary moves in
    /// front of it.
    #[verifier::loop_isolation(false)]
    fn scan_backward(&mut self, bytes: &[u8]) -> (r: Result<usize, Error>)
        requires
            old(self).wf(),
            old(self)@.supports(bytes@),
            !old(self)@.backward_done,
            bytes@.len() < old(self)@.stream.len(),
        ensures
            final(self).wf(),
            Self::searched(*old(self), *final(self), bytes@, Dir::End, r),
    {
        let plen = bytes.len();
        let tail = bytes[plen - 1];
        let ghost stream = self.inner@;
        let ghost rend = self.state.rpos as int + 1;
        let mut rpos = self.state.rpos;
        loop
            invariant
                self.wf(),
                self@ == old(self)@,
                self.stream_reliable() == old(self).stream_reliable(),
                rpos < rend <= self.len,
                crate::occurrence::none_in(stream, bytes@, rpos + 2 - plen, rend - plen + 1),
                rpos + 1 < rend ==> old(self)@.reads_stream(bytes@, Dir::End),
                rpos + 1 < rend ==> self.stream_accesses() > old(self).stream_accesses(),
                rpos + 1 == rend ==> self.stream_position() == old(self).stream_position(),
                rpos + 1 == rend ==> self.stream_accesses() == old(self).stream_accesses(),
            decreases rpos,
        {
            let remaining = rpos + 1;
            if remaining < plen {
                proof {
                    assert forall|j: int| j + plen <= rend implies !crate::occurrence::occurs_at(
                        stream,
                        bytes@,
                        j,
                    ) by {}
                    crate::occurrence::lemma_last_occurrence_none(stream, bytes@, rend);
                }
                self.state.rdone = true;
                return Err(Error::new(ErrorKind::ByteNotFound));
            }
            let window = if remaining < self.cap {
                remaining
            } else {
                self.cap
            };
            let last = window == remaining;
            let start = remaining - window;
            fit(&mut self.buf, window);
            match self.inner.read_exact_at(start, &mut self.buf) {
                Err(e) => {
                    proof {
                        crate::error::lemma_from_io_error(e);
                    }
                    return Err(Error::from(e));
                },
                Ok(()) => {},
            }
            let mut end: usize = window;
            while end > 0
                invariant
                    self.wf(),
                    self@ == old(self)@,
                    self.stream_reliable() == old(self).stream_reliable(),
                    self.stream_accesses() > old(self).stream_accesses(),
                    end <= window,
                    self.buf@ == stream.subrange(start as int, start + window),
                    crate::occurrence::none_in(
                        stream,
                        bytes@,
                        start + end + 1 - plen,
                        rend - plen + 1,
                    ),
                decreases end,
            {
                match rfind_byte(&self.buf, end, tail) {
                    None => {
                        proof {
                            assert forall|j: int| start <= j < start + end implies stream[j]
                                != tail by {
                                assert(self.buf@[j - start] == stream[j]);
                            }
                            crate::occurrence::lemma_none_without_last(
                                stream,
                                bytes@,
                                start as int,
                                start + end,
                            );
                        }
                        end = 0;
                    },
                    Some(q) => {
                        proof {
                            assert forall|j: int| start + q < j < start + end implies stream[j]
                                != tail by {
                                assert(self.buf@[j - start] == stream[j]);
                            }
                            crate::occurrence::lemma_none_without_last(
                                stream,
                                bytes@,
                                start + q + 1,
                                start + end,
                            );
                        }
                        let epos = start + q;
                        if epos + 1 >= plen {
                            let cpos = epos + 1 - plen;
                            match self.match_in_place(cpos, bytes) {
                                Err(e) => {
                                    return Err(e);
                                },
                                Ok(true) => {
                                    proof {
                                        crate::occurrence::lemma_last_occurrence_is(
                                            stream,
                                            bytes@,
                                            rend,
                                            cpos as int,
                                        );
                                    }
                                    if cpos == 0 {
                                        self.state.rdone = true;
                                    } else {
                                        self.state.rpos = cpos - 1;
                                    }
                                    return Ok(cpos);
                                },
                                Ok(false) => {},
                            }
                        }
                        end = q;
                    },
                }
            }
            if last {
                proof {
                    assert forall|j: int| j + plen <= rend implies !crate::occurrence::occurs_at(
                        stream,
                        bytes@,
                        j,
                    ) by {}
                    crate::occurrence::lemma_last_occurrence_none(stream, bytes@, rend);
                }
                self.state.rdone = true;
                return Err(Error::new(ErrorKind::ByteNotFound));
            }
            rpos = start - 1;
        }
    }

    /// Reads the `bytes.len()` bytes of the stream that start at `pos` and
    /// tells whether they are `bytes`. Where the stream has not that many
    /// bytes from `pos` on, the answer is `false` and nothing is read;
    /// else the stream's cursor is left behind the bytes that were read.
    pub fn match_in_place(&mut self, pos: usize, bytes: &[u8]) -> (r: Result<bool, Error>)
        requires
            old(self).wf(),
        ensures
            final(self).wf(),
            final(self)@ == old(self)@,
            final(self).window() == old(self).window(),
            final(self).stream_reliable() == old(self).stream_reliable(),
            match r {
                Ok(found) => found == crate::occurrence::occurs_at(
                    old(self)@.stream,
                    bytes@,
                    pos as int,
                ),
                Err(e) => {
                    &&& e.spec_kind() matches ErrorKind::Io(err) && final(self).stream_error()
                        == Some(err)
                    &&& !old(self).stream_reliable()
                    &&& pos + bytes@.len() <= old(self)@.stream.len()
                },
            },
            pos + bytes@.len() > old(self)@.stream.len() ==> final(self).stream_position() == old(
                self,
            ).stream_position(),
            pos + bytes@.len() > old(self)@.stream.len() ==> final(self).stream_accesses() == old(
                self,
            ).stream_accesses(),
            pos + bytes@.len() <= old(self)@.stream.len() ==> final(self).stream_accesses() > old(
                self,
            ).stream_accesses(),
            pos + bytes@.len() <= old(self)@.stream.len() && r is Ok ==> final(self).stream_position()
                == pos + bytes@.len(),
    {
        let len = bytes.len();
        if len > self.len || pos > self.len - len {
            return Ok(false);
        }
        let mut buf = vecu8(len);
        match self.inner.read_exact_at(pos, &mut buf) {
            Err(e) => {
                proof {
                    crate::error::lemma_from_io_error(e);
                }
                Err(Error::from(e))
            },
            Ok(()) => Ok(same_bytes(buf.as_slice(), bytes)),
        }
    }
}

/// Whether `a` and `b` hold the same bytes.
fn same_bytes(a: &[u8], b: &[u8]) -> (same: bool)
    ensures
        same == (a@ == b@),
{
    if a.len() != b.len() {
        return false;
    }
    let mut i: usize = 0;
    while i < a.len()
        invariant
            i <= a@.len(),
            a@.len() == b@.len(),
            forall|k: int| 0 <= k < i ==> a@[k] == b@[k],
        decreases a@.len() - i,
    {
        if a[i] != b[i] {
            return false;
        }
        i += 1;
    }
    assert(a@ =~= b@);
    true
}

/// The first index at or after `from` at which `buf` holds `byte`.
fn find_byte(buf: &Vec<u8>, from: usize, byte: u8) -> (found: Option<usize>)
    requires
        from <= buf@.len(),
    ensures
        match found {
            Some(p) => {
                &&& from <= p < buf@.len()
                &&& buf@[p as int] == byte
                &&& forall|k: int| from <= k < p ==> buf@[k] != byte
            },
            None => forall|k: int| from <= k < buf@.len() ==> buf@[k] != byte,
        },
{
    let mut i: usize = from;
    while i < buf.len()
        invariant
            from <= i <= buf@.len(),
            forall|k: int| from <= k < i ==> buf@[k] != byte,
        decreases buf@.len() - i,
    {
        if buf[i] == byte {
            return Some(i);
        }
        i += 1;
    }
    None
}

/// The last index before `end` at which `buf` holds `byte`.
fn rfind_byte(buf: &Vec<u8>, end: usize, byte: u8) -> (found: Option<usize>)
    requires
        end <= buf@.len(),
    ensures
        match found {
            Some(p) => {
                &&& p < end
                &&& buf@[p as int] == byte
                &&& forall|k: int| p < k < end ==> buf@[k] != byte
            },
            None => forall|k: int| 0 <= k < end ==> buf@[k] != byte,
        },
{
    let mut i: usize = end;
    while i > 0
        invariant
            i <= end <= buf@.len(),
            forall|k: int| i <= k < end ==> buf@[k] != byte,
        decreases i,
    {
        i -= 1;
        if buf[i] == byte {
            return Some(i);
        }
    }
    None
}

/// Gives `buf` the length `len`: bytes behind `len` are dropped, and zero
/// bytes are added where it is shorter.
fn fit(buf: &mut Vec<u8>, len: usize)
    ensures
        final(buf)@.len() == len,
        forall|i: int| 0 <= i < len && i < old(buf)@.len() ==> final(buf)@[i] == old(buf)@[i],
        forall|i: int| old(buf)@.len() <= i < len ==> final(buf)@[i] == 0,
{
    buf.truncate(len);
    while buf.len() < len
        invariant
            buf@.len() <= len,
            buf@.len() < len ==> old(buf)@.len() <= buf@.len(),
            forall|i: int| 0 <= i < buf@.len() && i < old(buf)@.len() ==> buf@[i] == old(buf)@[i],
            forall|i: int| old(buf)@.len() <= i < buf@.len() ==> buf@[i] == 0,
        decreases len - buf@.len(),
    {
        buf.push(0);
    }
}

/// Creates a `Vec<u8>` of `len` zero bytes.
pub fn vecu8(len: usize) -> (vec: Vec<u8>)
    ensures
        vec@ == Seq::new(len as nat, |i: int| 0u8),
{
    let mut vec: Vec<u8> = Vec::with_capacity(len);
    while vec.len() < len
        invariant
            vec@.len() <= len,
            vec@ == Seq::new(vec@.len(), |i: int| 0u8),
        decreases len - vec@.len(),
    {
        vec.push(0);
        assert(vec@ =~= Seq::new(vec@.len(), |i: int| 0u8));
    }
    vec
}

} // verus!
