//! Per-session state of the terminal daemon: the bounded scroll-back buffer
//! and the output fan-out ring that attached clients stream from.

use vstd::prelude::*;
use vstd::utf8::is_continuation_byte;

verus! {

/// Bytes of scroll-back retained per session.
pub const SCROLLBACK_CAPACITY: usize = 65536;

/// Chunks a slow subscriber may fall behind before it is lagged.
pub const RING_CAPACITY: usize = 256;

// ---------------------------------------------------------------------------
// Scroll-back
// ---------------------------------------------------------------------------
/// End position of the first newline at or after `i`, if any.
pub open spec fn spec_find_newline_end(s: Seq<u8>, i: int) -> Option<int>
    decreases s.len() - i,
{
    if 0 <= i < s.len() {
        if s[i] == 0x0a {
            Some(i + 1)
        } else {
            spec_find_newline_end(s, i + 1)
        }
    } else {
        None
    }
}

/// First position at or after `i` that does not hold a UTF-8 continuation
/// byte: cutting there never splits an encoded character.
pub open spec fn spec_boundary_at(s: Seq<u8>, i: int) -> int
    decreases s.len() - i,
{
    if 0 <= i < s.len() && is_continuation_byte(s[i]) {
        spec_boundary_at(s, i + 1)
    } else {
        i
    }
}

/// Where the retained suffix starts once `overflow` bytes must go: right
/// after the first newline at or past the overflow boundary, else at the
/// first character boundary there.
pub open spec fn spec_scroll_cut(all: Seq<u8>, overflow: int) -> int {
    match spec_find_newline_end(all, overflow) {
        Some(e) => e,
        None => spec_boundary_at(all, overflow),
    }
}

/// The scroll-back after appending a chunk: everything, if it fits; else the
/// suffix from the cut point.
pub open spec fn spec_scroll_push(buf: Seq<u8>, chunk: Seq<u8>) -> Seq<u8> {
    let all = buf + chunk;
    if all.len() <= SCROLLBACK_CAPACITY {
        all
    } else {
        all.skip(spec_scroll_cut(all, all.len() - SCROLLBACK_CAPACITY))
    }
}

proof fn lemma_find_newline_end_bounds(s: Seq<u8>, i: int)
    requires
        0 <= i <= s.len(),
    ensures
        spec_find_newline_end(s, i) matches Some(e) ==> i < e <= s.len(),
    decreases s.len() - i,
{
    if i < s.len() && s[i] != 0x0a {
        lemma_find_newline_end_bounds(s, i + 1);
    }
}

proof fn lemma_boundary_at_bounds(s: Seq<u8>, i: int)
    requires
        0 <= i <= s.len(),
    ensures
        i <= spec_boundary_at(s, i) <= s.len(),
    decreases s.len() - i,
{
    if i < s.len() && is_continuation_byte(s[i]) {
        lemma_boundary_at_bounds(s, i + 1);
    }
}

/// The cut point drops at least the overflow and no more than everything.
pub proof fn lemma_scroll_cut_bounds(all: Seq<u8>, overflow: int)
    requires
        0 <= overflow <= all.len(),
    ensures
        overflow <= spec_scroll_cut(all, overflow) <= all.len(),
{
    lemma_find_newline_end_bounds(all, overflow);
    lemma_boundary_at_bounds(all, overflow);
}

/// The bounded scroll-back of one session. Its length never exceeds
/// `SCROLLBACK_CAPACITY`.
pub struct ScrollBuffer {
    data: Vec<u8>,
}

impl View for ScrollBuffer {
    type V = Seq<u8>;

    closed spec fn view(&self) -> Seq<u8> {
        self.data@
    }
}

impl ScrollBuffer {
    /// The scroll-back never retains more than its capacity.
    pub open spec fn wf(&self) -> bool {
        self@.len() <= SCROLLBACK_CAPACITY
    }

    /// An empty scroll-back.
    pub fn new() -> (r: ScrollBuffer)
        ensures
            r@ == Seq::<u8>::empty(),
            r.wf(),
    {
        ScrollBuffer { data: Vec::new() }
    }

    /// A copy of the retained bytes, for an attach snapshot.
    pub fn contents(&self) -> (r: Vec<u8>)
        ensures
            r@ == self@,
    {
        let mut out: Vec<u8> = Vec::new();
        let mut k: usize = 0;
        while k < self.data.len()
            invariant
                k <= self.data@.len(),
                out@ == self.data@.take(k as int),
            decreases self.data@.len() - k,
        {
            out.push(self.data[k]);
            assert(out@ =~= self.data@.take(k as int + 1));
            k = k + 1;
        }
        assert(self.data@.take(self.data@.len() as int) =~= self.data@);
        out
    }

    /// Appends a chunk, truncating the oldest bytes when the capacity is
    /// exceeded: preferably right after a newline, never inside a UTF-8
    /// character.
    pub fn push_chunk(&mut self, chunk: &[u8])
        requires
            old(self).wf(),
            old(self)@.len() + chunk@.len() <= usize::MAX,
        ensures
            final(self)@ == spec_scroll_push(old(self)@, chunk@),
            final(self).wf(),
    {
        let ghost all = old(self)@ + chunk@;
        let mut k: usize = 0;
        while k < chunk.len()
            invariant
                k <= chunk@.len(),
                old(self)@.len() + chunk@.len() <= usize::MAX,
                self.data@ == old(self)@ + chunk@.take(k as int),
            decreases chunk@.len() - k,
        {
            self.data.push(chunk[k]);
            assert(self.data@ =~= old(self)@ + chunk@.take(k as int + 1));
            k = k + 1;
        }
        assert(self.data@ =~= all);
        if self.data.len() > SCROLLBACK_CAPACITY {
            let overflow = self.data.len() - SCROLLBACK_CAPACITY;
            proof {
                lemma_scroll_cut_bounds(all, overflow as int);
            }
            let mut i: usize = overflow;
            while i < self.data.len() && self.data[i] != 0x0a
                invariant
                    overflow <= i <= self.data@.len(),
                    self.data@ == all,
                    spec_find_newline_end(all, overflow as int) == spec_find_newline_end(
                        all,
                        i as int,
                    ),
                decreases self.data@.len() - i,
            {
                i = i + 1;
            }
            let cut: usize = if i < self.data.len() {
                assert(spec_find_newline_end(all, i as int) == Some(i + 1int));
                i + 1
            } else {
                assert(spec_find_newline_end(all, i as int) is None);
                let mut c: usize = overflow;
                while c < self.data.len() && 0x80 <= self.data[c] && self.data[c] <= 0xbf
                    invariant
                        overflow <= c <= self.data@.len(),
                        self.data@ == all,
                        spec_boundary_at(all, overflow as int) == spec_boundary_at(all, c as int),
                    decreases self.data@.len() - c,
                {
                    c = c + 1;
                }
                assert(spec_boundary_at(all, c as int) == c as int);
                c
            };
            assert(cut as int == spec_scroll_cut(all, overflow as int));
            let mut kept: Vec<u8> = Vec::new();
            let mut t: usize = cut;
            while t < self.data.len()
                invariant
                    cut <= t <= self.data@.len(),
                    self.data@ == all,
                    kept@ == all.subrange(cut as int, t as int),
                decreases self.data@.len() - t,
            {
                kept.push(self.data[t]);
                assert(kept@ =~= all.subrange(cut as int, t as int + 1));
                t = t + 1;
            }
            assert(kept@ =~= all.skip(cut as int));
            self.data = kept;
        }
    }
}

// ---------------------------------------------------------------------------
// Output fan-out
// ---------------------------------------------------------------------------
/// What a subscriber finds when it polls the ring.
pub enum PollOutcome {
    /// Nothing new yet.
    Empty,
    /// The session was killed and everything published has been seen.
    Closed,
    /// The subscriber fell behind by more than the ring keeps; it resumes at
    /// the oldest retained chunk and has missed `missed` chunks for good.
    Lagged { next: usize, missed: usize },
    /// The chunk at the subscriber's cursor.
    Item { data: Vec<u8>, next: usize },
}

/// A bounded single-producer fan-out ring. Every published chunk gets the
/// next index of the session's output history; the ring retains the last
/// `RING_CAPACITY` of them, and each subscriber keeps its own cursor.
pub struct OutputRing {
    items: Vec<Vec<u8>>,
    base: usize,
    closed: bool,
    history: Ghost<Seq<Seq<u8>>>,
}

impl OutputRing {
    /// The full sequence of chunks ever published.
    pub closed spec fn history(&self) -> Seq<Seq<u8>> {
        self.history@
    }

    /// Whether the session was closed.
    pub closed spec fn is_closed(&self) -> bool {
        self.closed
    }

    /// The index of the oldest chunk the ring still retains.
    pub closed spec fn oldest_retained(&self) -> int {
        self.base as int
    }

    /// The ring retains exactly the tail of the history.
    pub closed spec fn wf(&self) -> bool {
        &&& self.history@.len() <= usize::MAX
        &&& self.base + self.items@.len() == self.history@.len()
        &&& self.items@.len() <= RING_CAPACITY
        &&& forall|i: int|
            0 <= i < self.items@.len() ==> (#[trigger] self.items@[i])@ == self.history@[
                self.base + i
            ]
    }

    /// An empty ring.
    pub fn new() -> (r: OutputRing)
        ensures
            r.wf(),
            r.history() == Seq::<Seq<u8>>::empty(),
            !r.is_closed(),
    {
        OutputRing { items: Vec::new(), base: 0, closed: false, history: Ghost(Seq::empty()) }
    }

    /// Publishes one chunk, dropping the oldest retained one when the ring
    /// is full.
    pub fn publish(&mut self, chunk: Vec<u8>)
        requires
            old(self).wf(),
            old(self).history().len() < usize::MAX,
        ensures
            final(self).wf(),
            final(self).history() == old(self).history().push(chunk@),
            final(self).is_closed() == old(self).is_closed(),
    {
        let ghost c = chunk@;
        self.items.push(chunk);
        proof {
            self.history@ = self.history@.push(c);
        }
        if self.items.len() > RING_CAPACITY {
            let _ = self.items.remove(0);
            self.base = self.base + 1;
        }
    }

    /// A new subscriber's cursor: the index of the next chunk published.
    pub fn subscribe(&self) -> (c: usize)
        requires
            self.wf(),
        ensures
            c == self.history().len(),
    {
        self.base + self.items.len()
    }

    /// Marks the session closed; subscribers that catch up observe it.
    pub fn close(&mut self)
        requires
            old(self).wf(),
        ensures
            final(self).wf(),
            final(self).history() == old(self).history(),
            final(self).is_closed(),
    {
        self.closed = true;
    }

    /// Polls on behalf of the subscriber at `cursor`.
    pub fn poll(&self, cursor: usize) -> (r: PollOutcome)
        requires
            self.wf(),
            cursor <= self.history().len(),
        ensures
            match r {
                PollOutcome::Empty => cursor == self.history().len() && !self.is_closed(),
                PollOutcome::Closed => cursor == self.history().len() && self.is_closed(),
                PollOutcome::Lagged { next, missed } => {
                    &&& cursor < self.oldest_retained()
                    &&& next == self.oldest_retained()
                    &&& cursor + missed == next
                    &&& missed > 0
                    &&& next + RING_CAPACITY >= self.history().len()
                    &&& next <= self.history().len()
                },
                PollOutcome::Item { data, next } => {
                    &&& data@ == self.history()[cursor as int]
                    &&& next == cursor + 1
                    &&& cursor < self.history().len()
                },
            },
    {
        if cursor < self.base {
            PollOutcome::Lagged { next: self.base, missed: self.base - cursor }
        } else if cursor < self.base + self.items.len() {
            let idx = cursor - self.base;
            let item = &self.items[idx];
            let mut data: Vec<u8> = Vec::new();
            let mut k: usize = 0;
            while k < item.len()
                invariant
                    k <= item@.len(),
                    data@ == item@.take(k as int),
                decreases item@.len() - k,
            {
                data.push(item[k]);
                assert(data@ =~= item@.take(k as int + 1));
                k = k + 1;
            }
            assert(item@.take(item@.len() as int) =~= item@);
            PollOutcome::Item { data, next: cursor + 1 }
        } else if self.closed {
            PollOutcome::Closed
        } else {
            PollOutcome::Empty
        }
    }
}

// ---------------------------------------------------------------------------
// Session core: scroll-back and fan-out move together
// ---------------------------------------------------------------------------
/// Concatenation of all published chunks: the session's whole output.
pub open spec fn concat_chunks(h: Seq<Seq<u8>>) -> Seq<u8>
    decreases h.len(),
{
    if h.len() == 0 {
        Seq::empty()
    } else {
        concat_chunks(h.drop_last()) + h.last()
    }
}

/// The in-memory output state of one session: every chunk read from the
/// terminal is appended to the scroll-back and published to the ring as one
/// step, so a snapshot plus the stream after it covers the output without
/// gaps or duplicates.
pub struct SessionCore {
    scroll: ScrollBuffer,
    ring: OutputRing,
}

impl SessionCore {
    /// The retained scroll-back bytes.
    pub closed spec fn buffer_view(&self) -> Seq<u8> {
        self.scroll@
    }

    /// The full history of published chunks.
    pub closed spec fn history(&self) -> Seq<Seq<u8>> {
        self.ring.history()
    }

    /// Whether the session was closed.
    pub closed spec fn is_closed(&self) -> bool {
        self.ring.is_closed()
    }

    /// The index of the oldest chunk still retained for subscribers.
    pub closed spec fn oldest_retained(&self) -> int {
        self.ring.oldest_retained()
    }

    /// The scroll-back is a suffix of the concatenated history: it holds
    /// exactly the most recent output, never reordered, padded or stale.
    pub closed spec fn wf(&self) -> bool {
        &&& self.scroll.wf()
        &&& self.ring.wf()
        &&& exists|cut: int|
            0 <= cut <= concat_chunks(self.ring.history()).len() && self.scroll@ == concat_chunks(
                self.ring.history(),
            ).skip(cut)
    }

    /// A fresh session core.
    pub fn new() -> (r: SessionCore)
        ensures
            r.wf(),
            r.history() == Seq::<Seq<u8>>::empty(),
            r.buffer_view() == Seq::<u8>::empty(),
            !r.is_closed(),
    {
        let r = SessionCore { scroll: ScrollBuffer::new(), ring: OutputRing::new() };
        proof {
            assert(concat_chunks(r.ring.history()).skip(0) =~= Seq::<u8>::empty());
        }
        r
    }

    /// Appends one chunk of terminal output to the scroll-back and publishes
    /// it, as one step.
    pub fn publish(&mut self, chunk: Vec<u8>)
        requires
            old(self).wf(),
            old(self).buffer_view().len() + chunk@.len() <= usize::MAX,
            old(self).history().len() < usize::MAX,
        ensures
            final(self).wf(),
            final(self).history() == old(self).history().push(chunk@),
            final(self).buffer_view() == spec_scroll_push(old(self).buffer_view(), chunk@),
            final(self).is_closed() == old(self).is_closed(),
    {
        let ghost oldh = self.ring.history();
        let ghost oldbuf = self.scroll@;
        self.scroll.push_chunk(chunk.as_slice());
        self.ring.publish(chunk);
        proof {
            let newh = self.ring.history();
            assert(newh.drop_last() =~= oldh);
            let cut = choose|cut: int|
                0 <= cut <= concat_chunks(oldh).len() && oldbuf == concat_chunks(oldh).skip(cut);
            let oldcat = concat_chunks(oldh);
            let newcat = concat_chunks(newh);
            assert(newcat == oldcat + newh.last());
            let c = newh.last();
            assert((oldcat + c).skip(cut) =~= oldcat.skip(cut) + c);
            assert(oldbuf + c == newcat.skip(cut));
            let all = oldbuf + c;
            if all.len() <= SCROLLBACK_CAPACITY {
                assert(self.scroll@ == newcat.skip(cut));
            } else {
                let cut2 = spec_scroll_cut(all, all.len() - SCROLLBACK_CAPACITY);
                lemma_scroll_cut_bounds(all, all.len() - SCROLLBACK_CAPACITY);
                assert(self.scroll@ == all.skip(cut2));
                assert(all.skip(cut2) =~= newcat.skip(cut + cut2));
            }
        }
    }

    /// The attach snapshot: the retained scroll-back and a fresh cursor. The
    /// snapshot reflects every chunk before the cursor and nothing else, so
    /// everything later polled with the cursor was produced strictly after
    /// every byte of the snapshot.
    pub fn snapshot(&self) -> (r: (Vec<u8>, usize))
        requires
            self.wf(),
        ensures
            r.0@ == self.buffer_view(),
            r.1 == self.history().len(),
            exists|cut: int|
                0 <= cut <= concat_chunks(self.history()).len() && r.0@ == concat_chunks(
                    self.history(),
                ).skip(cut),
    {
        let out = (self.scroll.contents(), self.ring.subscribe());
        proof {
            let cut = choose|cut: int|
                0 <= cut <= concat_chunks(self.ring.history()).len() && self.scroll@
                    == concat_chunks(self.ring.history()).skip(cut);
            assert(0 <= cut <= concat_chunks(self.history()).len() && out.0@ == concat_chunks(
                self.history(),
            ).skip(cut));
        }
        out
    }

    /// Polls the stream for the subscriber at `cursor`.
    pub fn poll(&self, cursor: usize) -> (r: PollOutcome)
        requires
            self.wf(),
            cursor <= self.history().len(),
        ensures
            match r {
                PollOutcome::Empty => cursor == self.history().len() && !self.is_closed(),
                PollOutcome::Closed => cursor == self.history().len() && self.is_closed(),
                PollOutcome::Lagged { next, missed } => {
                    &&& cursor < self.oldest_retained()
                    &&& next == self.oldest_retained()
                    &&& cursor + missed == next
                    &&& missed > 0
                    &&& next + RING_CAPACITY >= self.history().len()
                    &&& next <= self.history().len()
                },
                PollOutcome::Item { data, next } => {
                    &&& data@ == self.history()[cursor as int]
                    &&& next == cursor + 1
                    &&& cursor < self.history().len()
                },
            },
    {
        self.ring.poll(cursor)
    }

    /// Marks the session closed, as a kill does.
    pub fn close(&mut self)
        requires
            old(self).wf(),
        ensures
            final(self).wf(),
            final(self).history() == old(self).history(),
            final(self).buffer_view() == old(self).buffer_view(),
            final(self).is_closed(),
    {
        self.ring.close();
    }
}

/// Attach ordering: an attach snapshot is a suffix of the output published
/// before the snapshot's cursor, and by `poll`'s contract every chunk later
/// received through that cursor carries an index at or past it. So every
/// byte of the snapshot was produced strictly before every streamed chunk.
pub proof fn lemma_snapshot_precedes_stream(core: SessionCore, cursor: int, later: int)
    requires
        core.wf(),
        cursor == core.history().len(),
        cursor <= later,
    ensures
        exists|cut: int|
            0 <= cut <= concat_chunks(core.history()).len() && core.buffer_view() == concat_chunks(
                core.history(),
            ).skip(cut),
        later >= cursor,
{
}

} // verus!
