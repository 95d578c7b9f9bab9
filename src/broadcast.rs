//! A room's broadcast log: a bounded window over the sequence of everything published
//! to the room. Subscribers read by sequence number; a subscriber that falls behind the
//! window is told how much it missed instead of blocking publishers.

use vstd::prelude::*;

verus! {

/// Messages a room keeps for subscribers that have not read them yet.
pub const ROOM_CAPACITY: usize = 500;

/// The abstract log: the sequence number of the oldest kept message, the kept messages
/// in publish order, and the bound on how many are kept.
pub struct LogView {
    pub first: nat,
    pub messages: Seq<Seq<char>>,
    pub capacity: nat,
}

impl LogView {
    /// The sequence number the next published message gets.
    pub open spec fn next(self) -> nat {
        self.first + self.messages.len()
    }

    pub open spec fn wf(self) -> bool {
        &&& 0 < self.capacity
        &&& self.messages.len() <= self.capacity
    }
}

/// What one read at a cursor yields.
pub enum Recv {
    /// The message at the cursor.
    Message(String),
    /// The cursor fell out of the window; this many messages were missed.
    Lagged(u64),
    /// Nothing published at or after the cursor yet.
    Empty,
}

pub enum RecvView {
    Message(Seq<char>),
    Lagged(nat),
    Empty,
}

impl Recv {
    pub open spec fn view(&self) -> RecvView {
        match self {
            Recv::Message(m) => RecvView::Message(m@),
            Recv::Lagged(n) => RecvView::Lagged(*n as nat),
            Recv::Empty => RecvView::Empty,
        }
    }
}

/// Publishing appends, and drops the oldest message when the window is full.
pub open spec fn publish_spec(l: LogView, m: Seq<char>) -> LogView {
    if l.messages.len() < l.capacity {
        LogView { first: l.first, messages: l.messages.push(m), capacity: l.capacity }
    } else {
        LogView { first: l.first + 1, messages: l.messages.drop_first().push(m), capacity: l.capacity }
    }
}

/// A read at `cursor`: what it yields and the cursor after it.
pub open spec fn recv_spec(l: LogView, cursor: nat) -> (RecvView, nat) {
    if cursor < l.first {
        (RecvView::Lagged((l.first - cursor) as nat), l.first)
    } else if cursor < l.next() {
        (RecvView::Message(l.messages[cursor - l.first]), cursor + 1)
    } else {
        (RecvView::Empty, cursor)
    }
}

/// The log after publishing `ms` in order.
pub open spec fn publish_all(l: LogView, ms: Seq<Seq<char>>) -> LogView
    decreases ms.len(),
{
    if ms.len() == 0 {
        l
    } else {
        publish_spec(publish_all(l, ms.drop_last()), ms.last())
    }
}

/// The messages that `n` successive reads from `cursor` deliver, up to the first read
/// that delivers none.
pub open spec fn received(l: LogView, cursor: nat, n: nat) -> Seq<Seq<char>>
    decreases n,
{
    if n == 0 {
        Seq::empty()
    } else {
        match recv_spec(l, cursor) {
            (RecvView::Message(m), c) => seq![m] + received(l, c, (n - 1) as nat),
            _ => Seq::empty(),
        }
    }
}

pub struct RoomLog {
    first: u64,
    messages: Vec<String>,
    capacity: usize,
}

impl RoomLog {
    pub closed spec fn view(&self) -> LogView {
        LogView {
            first: self.first as nat,
            messages: self.messages@.map_values(|m: String| m@),
            capacity: self.capacity as nat,
        }
    }

    /// A log with no messages, numbered from 0.
    pub fn new(capacity: usize) -> (r: RoomLog)
        requires
            capacity > 0,
        ensures
            r@ == (LogView { first: 0, messages: Seq::empty(), capacity: capacity as nat }),
            r@.wf(),
    {
        let r = RoomLog { first: 0, messages: Vec::new(), capacity };
        assert(r@.messages =~= Seq::<Seq<char>>::empty());
        r
    }

    /// The cursor of a new subscriber: it reads what is published from now on.
    pub fn subscribe(&self) -> (c: u64)
        requires
            self@.wf(),
            self@.next() <= u64::MAX,
        ensures
            c == self@.next(),
    {
        self.first + self.messages.len() as u64
    }

    pub fn publish(&mut self, m: String)
        requires
            old(self)@.wf(),
            old(self)@.next() < u64::MAX,
        ensures
            final(self)@ == publish_spec(old(self)@, m@),
            final(self)@.wf(),
    {
        if self.messages.len() < self.capacity {
            self.messages.push(m);
            assert(self@.messages =~= old(self)@.messages.push(m@));
        } else {
            self.messages.remove(0);
            self.messages.push(m);
            self.first = self.first + 1;
            assert(self@.messages =~= old(self)@.messages.drop_first().push(m@));
        }
    }

    /// Reads at `cursor`: the message there, or how many messages the cursor missed, or
    /// nothing; with the cursor to read at next.
    pub fn recv(&self, cursor: u64) -> (r: (Recv, u64))
        requires
            self@.wf(),
            self@.next() <= u64::MAX,
        ensures
            (r.0@, r.1 as nat) == recv_spec(self@, cursor as nat),
    {
        if cursor < self.first {
            (Recv::Lagged(self.first - cursor), self.first)
        } else if cursor - self.first < self.messages.len() as u64 {
            let i = (cursor - self.first) as usize;
            (Recv::Message(self.messages[i].clone()), cursor + 1)
        } else {
            (Recv::Empty, cursor)
        }
    }
}

proof fn lemma_publish_all_shape(l: LogView, ms: Seq<Seq<char>>)
    requires
        l.wf(),
        ms.len() <= l.capacity,
    ensures
        publish_all(l, ms).wf(),
        publish_all(l, ms).capacity == l.capacity,
        publish_all(l, ms).next() == l.next() + ms.len(),
        publish_all(l, ms).first <= l.next(),
        forall|i: int| 0 <= i < ms.len() ==> #[trigger] publish_all(l, ms).messages[l.next() + i - publish_all(l, ms).first] == ms[i],
    decreases ms.len(),
{
    if ms.len() > 0 {
        let prev = publish_all(l, ms.drop_last());
        lemma_publish_all_shape(l, ms.drop_last());
        let cur = publish_all(l, ms);
        assert(cur == publish_spec(prev, ms.last()));
        assert forall|i: int| 0 <= i < ms.len() implies #[trigger] cur.messages[l.next() + i - cur.first] == ms[i] by {
            if i < ms.len() - 1 {
                assert(ms.drop_last()[i] == ms[i]);
                assert(prev.messages[l.next() + i - prev.first] == ms[i]);
            }
        }
    }
}

proof fn lemma_received_suffix(p: LogView, start: nat, ms: Seq<Seq<char>>, k: nat)
    requires
        p.wf(),
        p.first <= start,
        p.next() == start + ms.len(),
        k <= ms.len(),
        forall|i: int| 0 <= i < ms.len() ==> #[trigger] p.messages[start + i - p.first] == ms[i],
    ensures
        received(p, start + k, (ms.len() - k) as nat) == ms.subrange(k as int, ms.len() as int),
    decreases ms.len() - k,
{
    if k < ms.len() {
        lemma_received_suffix(p, start, ms, k + 1);
        assert(p.messages[start + k - p.first] == ms[k as int]);
        assert(ms.subrange(k as int, ms.len() as int) =~= seq![ms[k as int]] + ms.subrange(k + 1int, ms.len() as int));
    } else {
        assert(ms.subrange(k as int, ms.len() as int) =~= Seq::<Seq<char>>::empty());
    }
}

/// Fan-out order: every subscriber that subscribed before messages `ms` were published
/// (while the window still holds them) reads exactly `ms`, in publish order. Since the
/// reads depend only on the log and the cursor, all such subscribers read the same.
pub proof fn lemma_subscribers_read_in_order(l: LogView, ms: Seq<Seq<char>>)
    requires
        l.wf(),
        ms.len() <= l.capacity,
    ensures
        received(publish_all(l, ms), l.next(), ms.len()) == ms,
{
    lemma_publish_all_shape(l, ms);
    lemma_received_suffix(publish_all(l, ms), l.next(), ms, 0);
    assert(ms.subrange(0, ms.len() as int) =~= ms);
}

} // verus!
