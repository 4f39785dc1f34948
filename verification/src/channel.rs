//! A bounded multi-consumer fan-out channel.
//!
//! Every line sent is delivered to every current reader; a reader that was
//! subscribed after a line was sent never sees that line (no replay). The
//! buffer is bounded: when it is full, sending drops the oldest retained
//! line, and a reader that had not yet consumed it observes a lag exactly
//! once before resuming from the oldest retained line. Senders never block
//! on slow readers.

use vstd::prelude::*;

verus! {

/// One reader's cursor into the channel's buffer.
///
/// `pos` indexes into the retained buffer (0 = oldest retained line);
/// `lagged` records that a line this reader had not yet consumed was
/// dropped by a full-buffer send.
#[derive(Clone, Copy)]
pub struct Reader {
    pub pos: usize,
    pub lagged: bool,
}

/// The outcome of polling a reader.
pub enum Recv {
    /// The next line for this reader, in send order.
    Line(String),
    /// At least one line was dropped before this reader consumed it; the
    /// reader resumes from the oldest retained line.
    Lagged,
    /// The reader has consumed every line sent so far.
    Empty,
}

/// A bounded multi-consumer fan-out channel with drop-oldest overflow.
pub struct Channel {
    capacity: usize,
    buffer: Vec<String>,
    readers: Vec<Reader>,
}

impl Channel {
    /// The retained lines, oldest first, as sequences of characters.
    pub closed spec fn lines(self) -> Seq<Seq<char>> {
        self.buffer@.map_values(|s: String| s@)
    }

    /// The bound on how many lines are retained for lagging readers.
    pub closed spec fn cap(self) -> int {
        self.capacity as int
    }

    /// How many readers are subscribed.
    pub closed spec fn reader_count(self) -> int {
        self.readers@.len() as int
    }

    /// Whether reader `i` has observed a drop it has not yet been told of.
    pub closed spec fn lagged(self, i: int) -> bool {
        self.readers@[i].lagged
    }

    /// The lines reader `i` has yet to consume, oldest first.
    pub closed spec fn pending(self, i: int) -> Seq<Seq<char>> {
        self.lines().skip(self.readers@[i].pos as int)
    }

    /// Structural well-formedness: a positive bound, a buffer within it,
    /// and every cursor inside the buffer.
    pub closed spec fn wf(self) -> bool {
        &&& self.capacity >= 1
        &&& self.buffer@.len() <= self.capacity
        &&& forall|i: int|
            0 <= i < self.readers@.len() ==> (#[trigger] self.readers@[i]).pos <= self.buffer@.len()
    }

    /// Whether a send into a full buffer drops a line that reader `i`
    /// had not yet consumed: the buffer is at its bound and the reader has
    /// consumed none of the retained lines.
    pub open spec fn send_drops_for(self, i: int) -> bool {
        self.lines().len() == self.cap() && self.pending(i).len() == self.lines().len()
    }

    /// Creates an empty channel with no readers retaining at most
    /// `capacity` lines.
    pub fn new(capacity: usize) -> (r: Channel)
        requires
            capacity >= 1,
        ensures
            r.wf(),
            r.cap() == capacity,
            r.lines() == Seq::<Seq<char>>::empty(),
            r.reader_count() == 0,
    {
        let r = Channel { capacity, buffer: Vec::new(), readers: Vec::new() };
        proof {
            assert(r.lines() =~= Seq::<Seq<char>>::empty());
        }
        r
    }

    /// Subscribes a new reader. The reader starts past every line already
    /// sent: nothing is replayed.
    pub fn subscribe(&mut self) -> (id: usize)
        requires
            old(self).wf(),
        ensures
            final(self).wf(),
            id == old(self).reader_count(),
            final(self).reader_count() == old(self).reader_count() + 1,
            final(self).cap() == old(self).cap(),
            final(self).lines() == old(self).lines(),
            final(self).pending(id as int) == Seq::<Seq<char>>::empty(),
            !final(self).lagged(id as int),
            forall|i: int|
                0 <= i < old(self).reader_count() ==> final(self).pending(i) == old(self).pending(i) && final(self).lagged(i) == old(self).lagged(i),
    {
        let id = self.readers.len();
        let pos = self.buffer.len();
        self.readers.push(Reader { pos, lagged: false });
        proof {
            assert(final(self).pending(id as int) =~= Seq::<Seq<char>>::empty());
        }
        id
    }

    /// Bounds every well-formed channel affords its callers: the buffer
    /// stays within its positive bound and no reader is ahead of it.
    pub proof fn lemma_wf_bounds(self)
        requires
            self.wf(),
        ensures
            self.cap() >= 1,
            self.lines().len() <= self.cap(),
            forall|i: int|
                0 <= i < self.reader_count() ==> #[trigger] self.pending(i).len()
                    <= self.lines().len(),
    {
        assert forall|i: int| 0 <= i < self.reader_count() implies #[trigger] self.pending(i).len()
            <= self.lines().len() by {
            assert(self.readers@[i].pos <= self.buffer@.len());
        }
    }

    /// How many readers are subscribed.
    pub fn num_readers(&self) -> (n: usize)
        ensures
            n == self.reader_count(),
    {
        self.readers.len()
    }

    /// Sends a line: every reader's pending lines gain it at the end. If
    /// the buffer was full, the oldest retained line is dropped first, and
    /// each reader that had not yet consumed it loses it and is marked
    /// lagged. Sending never blocks and never fails.
    pub fn send(&mut self, line: String)
        requires
            old(self).wf(),
        ensures
            final(self).wf(),
            final(self).cap() == old(self).cap(),
            final(self).reader_count() == old(self).reader_count(),
            old(self).lines().len() < old(self).cap() ==> final(self).lines() == old(self).lines().push(line@),
            old(self).lines().len() == old(self).cap() ==> final(self).lines() == old(self).lines().drop_first().push(line@),
            forall|i: int|
                0 <= i < old(self).reader_count() ==> if old(self).send_drops_for(i) {
                    final(self).pending(i) == old(self).pending(i).drop_first().push(line@)
                        && final(self).lagged(i)
                } else {
                    final(self).pending(i) == old(self).pending(i).push(line@) && final(self).lagged(i) == old(self).lagged(i)
                },
    {
        let ghost pre = *self;
        if self.buffer.len() == self.capacity {
            self.buffer.remove(0);
            let n = self.readers.len();
            let mut j: usize = 0;
            while j < n
                invariant
                    n == self.readers@.len(),
                    j <= n,
                    self.capacity == pre.capacity,
                    self.buffer@ == pre.buffer@.drop_first(),
                    pre.buffer@.len() == pre.capacity,
                    pre.wf(),
                    forall|i: int|
                        0 <= i < j ==> {
                            let r0 = pre.readers@[i];
                            (#[trigger] self.readers@[i]) == if r0.pos == 0 {
                                Reader { pos: 0, lagged: true }
                            } else {
                                Reader { pos: (r0.pos - 1) as usize, lagged: r0.lagged }
                            }
                        },
                    forall|i: int|
                        j <= i < n ==> (#[trigger] self.readers@[i]) == pre.readers@[i],
                decreases n - j,
            {
                let r = self.readers[j];
                if r.pos == 0 {
                    self.readers[j] = Reader { pos: 0, lagged: true };
                } else {
                    self.readers[j] = Reader { pos: r.pos - 1, lagged: r.lagged };
                }
                j += 1;
            }
            self.buffer.push(line);
            proof {
                assert(final(self).lines() =~= pre.lines().drop_first().push(line@));
                assert forall|i: int| 0 <= i < pre.reader_count() implies if pre.send_drops_for(i) {
                    final(self).pending(i) == pre.pending(i).drop_first().push(line@) && final(self).lagged(i)
                } else {
                    final(self).pending(i) == pre.pending(i).push(line@) && final(self).lagged(i)
                        == pre.lagged(i)
                } by {
                    let p0 = pre.readers@[i].pos as int;
                    if p0 == 0 {
                        assert(final(self).pending(i) =~= pre.pending(i).drop_first().push(line@));
                    } else {
                        assert(final(self).pending(i) =~= pre.pending(i).push(line@));
                    }
                }
            }
        } else {
            self.buffer.push(line);
            proof {
                assert(final(self).lines() =~= pre.lines().push(line@));
                assert forall|i: int| 0 <= i < pre.reader_count() implies final(self).pending(i)
                    == pre.pending(i).push(line@) && final(self).lagged(i) == pre.lagged(i) by {
                    assert(final(self).pending(i) =~= pre.pending(i).push(line@));
                }
            }
        }
    }

    /// Polls reader `id`: the next pending line in send order, or a single
    /// lag report after a drop, or nothing when the reader is caught up.
    pub fn recv(&mut self, id: usize) -> (r: Recv)
        requires
            old(self).wf(),
            id < old(self).reader_count(),
        ensures
            final(self).wf(),
            final(self).cap() == old(self).cap(),
            final(self).reader_count() == old(self).reader_count(),
            final(self).lines() == old(self).lines(),
            forall|i: int|
                0 <= i < old(self).reader_count() && i != id ==> final(self).pending(i) == old(self).pending(i) && final(self).lagged(i) == old(self).lagged(i),
            old(self).lagged(id as int) ==> r is Lagged && final(self).pending(id as int) == old(self).pending(id as int) && !final(self).lagged(id as int),
            !old(self).lagged(id as int) && old(self).pending(id as int).len() == 0 ==> r is Empty
                && *final(self) == *old(self),
            !old(self).lagged(id as int) && old(self).pending(id as int).len() > 0 ==> {
                &&& r matches Recv::Line(l) && l@ == old(self).pending(id as int).first()
                &&& final(self).pending(id as int) == old(self).pending(id as int).drop_first()
                &&& !final(self).lagged(id as int)
            },
    {
        let ghost pre = *self;
        let r = self.readers[id];
        if r.lagged {
            self.readers[id] = Reader { pos: r.pos, lagged: false };
            proof {
                assert(final(self).pending(id as int) =~= pre.pending(id as int));
                assert forall|i: int| 0 <= i < pre.reader_count() && i != id implies final(self).pending(i) =~= pre.pending(i) by {}
            }
            Recv::Lagged
        } else if r.pos == self.buffer.len() {
            Recv::Empty
        } else {
            let line = self.buffer[r.pos].clone();
            self.readers[id] = Reader { pos: r.pos + 1, lagged: false };
            proof {
                assert(final(self).pending(id as int) =~= pre.pending(id as int).drop_first());
                assert(line@ == pre.pending(id as int).first());
                assert forall|i: int| 0 <= i < pre.reader_count() && i != id implies final(self).pending(i) =~= pre.pending(i) by {}
            }
            Recv::Line(line)
        }
    }
}

} // verus!
