//! A chat room: the set of usernames currently present and the fan-out
//! channel their lines are delivered on.
//!
//! A username is unique within its room: joining reserves the name until
//! the member leaves. Leaving is idempotent, and a room never blocks a
//! sender on a slow reader.

use vstd::prelude::*;

use crate::channel::{Channel, Recv};

verus! {

/// How many lines a room's channel retains for lagging readers.
pub const CHANNEL_CAPACITY: usize = 69;

/// A room: its members and its fan-out channel.
pub struct Room {
    users: Vec<String>,
    channel: Channel,
}

/// How a successful join with username `u` changes a room: `u` is added to
/// the members, and a fresh subscription `id` is opened past every line
/// already sent. Nothing is broadcast and no other reader is disturbed.
pub open spec fn join_post(pre: Room, post: Room, u: Seq<char>, id: int) -> bool {
    &&& post.wf()
    &&& id == pre.chan().reader_count()
    &&& post.member_seq() == pre.member_seq().push(u)
    &&& post.members() == pre.members().insert(u)
    &&& post.chan().lines() == pre.chan().lines()
    &&& post.chan().cap() == pre.chan().cap()
    &&& post.chan().reader_count() == pre.chan().reader_count() + 1
    &&& post.chan().pending(id) == Seq::<Seq<char>>::empty()
    &&& !post.chan().lagged(id)
    &&& forall|i: int|
        0 <= i < pre.chan().reader_count() ==> post.chan().pending(i) == pre.chan().pending(i)
            && post.chan().lagged(i) == pre.chan().lagged(i)
}

/// How broadcasting `line` changes a room: membership is untouched, every
/// reader's pending lines gain `line` at the end, and a reader that had
/// not yet consumed the oldest line of a full buffer loses it and is
/// marked lagged (drop-oldest overflow).
pub open spec fn send_post(pre: Room, post: Room, line: Seq<char>) -> bool {
    &&& post.wf()
    &&& post.member_seq() == pre.member_seq()
    &&& post.chan().cap() == pre.chan().cap()
    &&& post.chan().reader_count() == pre.chan().reader_count()
    &&& pre.chan().lines().len() < pre.chan().cap() ==> post.chan().lines() == pre.chan().lines().push(line)
    &&& pre.chan().lines().len() == pre.chan().cap() ==> post.chan().lines()
        == pre.chan().lines().drop_first().push(line)
    &&& forall|i: int|
        0 <= i < pre.chan().reader_count() ==> if pre.chan().send_drops_for(i) {
            post.chan().pending(i) == pre.chan().pending(i).drop_first().push(line)
                && post.chan().lagged(i)
        } else {
            post.chan().pending(i) == pre.chan().pending(i).push(line) && post.chan().lagged(i)
                == pre.chan().lagged(i)
        }
}

/// How removing username `u` changes a room: a no-op when `u` is absent,
/// otherwise exactly `u` leaves the member set. The channel is untouched
/// either way, and `u` is certainly absent afterwards.
pub open spec fn leave_post(pre: Room, post: Room, u: Seq<char>) -> bool {
    &&& post.wf()
    &&& (!pre.members().contains(u) ==> post == pre)
    &&& (pre.members().contains(u) ==> post.member_seq().len() == pre.member_seq().len() - 1
        && post.members() == pre.members().remove(u))
    &&& post.chan() == pre.chan()
    &&& !post.members().contains(u)
}

/// How polling subscription `id` changes a room: membership and lines are
/// untouched and no other reader is disturbed. A lagged reader is told so
/// exactly once; otherwise the oldest pending line is consumed, in send
/// order, or nothing happens when the reader is caught up.
pub open spec fn recv_post(pre: Room, post: Room, id: int, r: Recv) -> bool {
    &&& post.wf()
    &&& post.member_seq() == pre.member_seq()
    &&& post.chan().cap() == pre.chan().cap()
    &&& post.chan().reader_count() == pre.chan().reader_count()
    &&& post.chan().lines() == pre.chan().lines()
    &&& forall|i: int|
        0 <= i < pre.chan().reader_count() && i != id ==> post.chan().pending(i)
            == pre.chan().pending(i) && post.chan().lagged(i) == pre.chan().lagged(i)
    &&& pre.chan().lagged(id) ==> r is Lagged && post.chan().pending(id) == pre.chan().pending(id)
        && !post.chan().lagged(id)
    &&& !pre.chan().lagged(id) && pre.chan().pending(id).len() == 0 ==> r is Empty && post == pre
    &&& !pre.chan().lagged(id) && pre.chan().pending(id).len() > 0 ==> {
        &&& r matches Recv::Line(l) && l@ == pre.chan().pending(id).first()
        &&& post.chan().pending(id) == pre.chan().pending(id).drop_first()
        &&& !post.chan().lagged(id)
    }
}


impl Room {
    /// The usernames present, in join order.
    pub closed spec fn member_seq(self) -> Seq<Seq<char>> {
        self.users@.map_values(|s: String| s@)
    }

    /// The set of usernames present.
    pub open spec fn members(self) -> Set<Seq<char>> {
        self.member_seq().to_set()
    }

    /// The room's fan-out channel.
    pub closed spec fn chan(self) -> Channel {
        self.channel
    }

    /// Well-formedness: no username occurs twice, and the channel is
    /// well-formed with the fixed capacity.
    pub closed spec fn wf(self) -> bool {
        &&& forall|i: int, j: int|
            0 <= i < j < self.member_seq().len() ==> self.member_seq()[i] != self.member_seq()[j]
        &&& self.channel.wf()
        &&& self.channel.cap() == CHANNEL_CAPACITY
    }

    /// Creates an empty room: no members, no readers, nothing sent.
    pub fn new() -> (r: Room)
        ensures
            r.wf(),
            r.member_seq() == Seq::<Seq<char>>::empty(),
            r.chan().reader_count() == 0,
            r.chan().lines() == Seq::<Seq<char>>::empty(),
            r.chan().cap() == CHANNEL_CAPACITY,
    {
        let r = Room { users: Vec::new(), channel: Channel::new(CHANNEL_CAPACITY) };
        proof {
            assert(r.member_seq() =~= Seq::<Seq<char>>::empty());
        }
        r
    }

    /// Looks up the index of `username` among the members.
    fn find_user(&self, username: &String) -> (r: Option<usize>)
        ensures
            match r {
                Some(i) => i < self.member_seq().len() && self.member_seq()[i as int] == username@,
                None => !self.members().contains(username@),
            },
    {
        let n = self.users.len();
        let mut i: usize = 0;
        while i < n
            invariant
                n == self.users@.len(),
                i <= n,
                forall|j: int| 0 <= j < i ==> self.member_seq()[j] != username@,
            decreases n - i,
        {
            if self.users[i] == *username {
                return Some(i);
            }
            i += 1;
        }
        proof {
            if self.members().contains(username@) {
                let j = choose|j: int|
                    0 <= j < self.member_seq().len() && self.member_seq()[j] == username@;
                assert(self.member_seq()[j] != username@);
            }
        }
        None
    }

    /// Whether `username` is currently present in this room.
    pub fn is_member(&self, username: &String) -> (r: bool)
        ensures
            r == self.members().contains(username@),
    {
        match self.find_user(username) {
            Some(i) => {
                proof {
                    assert(self.members().contains(username@)) by {
                        assert(self.member_seq()[i as int] == username@);
                    }
                }
                true
            },
            None => false,
        }
    }

    /// Attempts to join: rejected exactly when the name is already
    /// present; otherwise the name is inserted and a fresh subscription to
    /// the room's channel is returned. The subscription starts past every
    /// line already sent.
    pub fn try_join(&mut self, username: &String) -> (r: Option<usize>)
        requires
            old(self).wf(),
        ensures
            final(self).wf(),
            old(self).members().contains(username@) ==> r is None && *final(self) == *old(self),
            !old(self).members().contains(username@) ==> (r matches Some(id) && join_post(
                *old(self),
                *final(self),
                username@,
                id as int,
            )),
    {
        if self.is_member(username) {
            return None;
        }
        let ghost pre = *self;
        self.users.push(username.clone());
        let id = self.channel.subscribe();
        proof {
            assert(final(self).member_seq() =~= pre.member_seq().push(username@));
            lemma_push_to_set(pre.member_seq(), username@);
        }
        Some(id)
    }

    /// Removes `username` from the room. Removing an absent name is a
    /// no-op and never fails; the channel is untouched either way.
    pub fn leave(&mut self, username: &String)
        requires
            old(self).wf(),
        ensures
            leave_post(*old(self), *final(self), username@),
    {
        let ghost pre = *self;
        match self.find_user(username) {
            Some(i) => {
                self.users.remove(i);
                proof {
                    assert(final(self).member_seq() =~= pre.member_seq().remove(i as int));
                    lemma_unique_remove_to_set(pre.member_seq(), i as int);
                    assert(pre.members().contains(username@)) by {
                        assert(pre.member_seq()[i as int] == username@);
                    }
                    assert(!final(self).members().contains(username@)) by {
                        if final(self).members().contains(username@) {
                            let j = choose|j: int|
                                0 <= j < final(self).member_seq().len() && final(self).member_seq()[j] == username@;
                        }
                    }
                }
            },
            None => {},
        }
    }

    /// The number of members present; zero exactly when the room is empty.
    pub fn member_count(&self) -> (n: usize)
        ensures
            n == self.member_seq().len(),
            n == 0 <==> self.members() =~= Set::<Seq<char>>::empty(),
    {
        proof {
            if self.member_seq().len() > 0 {
                assert(self.members().contains(self.member_seq()[0]));
            }
            if self.member_seq().len() == 0 {
                assert(self.members() =~= Set::<Seq<char>>::empty());
            }
        }
        self.users.len()
    }

    /// A well-formed room holds no username twice.
    pub proof fn lemma_distinct_members(self, i: int, j: int)
        requires
            self.wf(),
            0 <= i < j < self.member_seq().len(),
        ensures
            self.member_seq()[i] != self.member_seq()[j],
    {
    }

    /// Bounds every well-formed room affords its callers: the fixed
    /// channel capacity, a buffer within it, and no reader ahead of it.
    pub proof fn lemma_wf_bounds(self)
        requires
            self.wf(),
        ensures
            self.chan().cap() == CHANNEL_CAPACITY,
            self.chan().lines().len() <= self.chan().cap(),
            forall|i: int|
                0 <= i < self.chan().reader_count() ==> #[trigger] self.chan().pending(i).len()
                    <= self.chan().lines().len(),
    {
        self.channel.lemma_wf_bounds();
    }

    /// How many subscriptions the room's channel has.
    pub fn reader_count_exec(&self) -> (n: usize)
        ensures
            n == self.chan().reader_count(),
    {
        self.channel.num_readers()
    }

    /// Broadcasts a line on the room's channel; membership is untouched.
    pub fn send_line(&mut self, line: String)
        requires
            old(self).wf(),
        ensures
            send_post(*old(self), *final(self), line@),
    {
        self.channel.send(line);
        proof {
            assert(self.member_seq() =~= old(self).member_seq());
            assert(self.wf());
        }
    }

    /// Polls subscription `id` on the room's channel; membership is
    /// untouched.
    pub fn recv_line(&mut self, id: usize) -> (r: Recv)
        requires
            old(self).wf(),
            id < old(self).chan().reader_count(),
        ensures
            recv_post(*old(self), *final(self), id as int, r),
    {
        let r = self.channel.recv(id);
        proof {
            assert(self.member_seq() =~= old(self).member_seq());
            assert(self.wf());
        }
        r
    }
}

/// Appending an element to a sequence adds exactly that element to the
/// sequence's set of values.
proof fn lemma_push_to_set(s: Seq<Seq<char>>, x: Seq<char>)
    ensures
        s.push(x).to_set() == s.to_set().insert(x),
{
    assert forall|y: Seq<char>| s.push(x).to_set().contains(y) implies s.to_set().insert(
        x,
    ).contains(y) by {
        let j = choose|j: int| 0 <= j < s.push(x).len() && s.push(x)[j] == y;
        if j < s.len() {
            assert(s[j] == y);
        }
    }
    assert forall|y: Seq<char>| s.to_set().insert(x).contains(y) implies s.push(
        x,
    ).to_set().contains(y) by {
        if y == x {
            assert(s.push(x)[s.len() as int] == y);
        } else {
            let j = choose|j: int| 0 <= j < s.len() && s[j] == y;
            assert(s.push(x)[j] == y);
        }
    }
    assert(s.push(x).to_set() =~= s.to_set().insert(x));
}

/// Removing index `i` from a duplicate-free sequence removes exactly that
/// element from the sequence's set of values.
proof fn lemma_unique_remove_to_set(s: Seq<Seq<char>>, i: int)
    requires
        0 <= i < s.len(),
        forall|p: int, q: int| 0 <= p < q < s.len() ==> s[p] != s[q],
    ensures
        s.remove(i).to_set() == s.to_set().remove(s[i]),
{
    let t = s.remove(i);
    assert forall|x: Seq<char>| t.to_set().contains(x) implies s.to_set().remove(s[i]).contains(
        x,
    ) by {
        let j = choose|j: int| 0 <= j < t.len() && t[j] == x;
        if j < i {
            assert(s[j] == x);
        } else {
            assert(s[j + 1] == x);
        }
    }
    assert forall|x: Seq<char>| s.to_set().remove(s[i]).contains(x) implies t.to_set().contains(
        x,
    ) by {
        let j = choose|j: int| 0 <= j < s.len() && s[j] == x;
        if j < i {
            assert(t[j] == x);
        } else {
            assert(j != i);
            assert(t[j - 1] == x);
        }
    }
    assert(t.to_set() =~= s.to_set().remove(s[i]));
}

} // verus!
