//! The room registry: a mapping from room name to room, created lazily on
//! the first successful join and torn down when the last member leaves.
//!
//! Every operation is a single atomic step over the whole registry; the
//! caller serialises access (one critical section per operation), so a
//! lookup-or-create, a join, a leave and an emptiness check are never
//! interleaved with one another.

use vstd::prelude::*;

use crate::channel::Recv;
use crate::lines::{left_line, spec_left_line};
use crate::room::{join_post, leave_post, recv_post, send_post, Room, CHANNEL_CAPACITY};

verus! {

/// What polling a subscription through the registry yields.
pub enum Delivery {
    /// The next line for this subscription, in send order.
    Line(String),
    /// Lines were dropped before this subscription consumed them.
    Lagged,
    /// The subscription has consumed every line sent so far.
    Empty,
    /// The room, or the subscription, no longer exists.
    Closed,
}

/// The registry: room names and rooms, kept in step.
pub struct Registry {
    names: Vec<String>,
    rooms: Vec<Room>,
}

/// Whether `post` presents exactly the same rooms as `pre`.
pub open spec fn unchanged_registry(pre: Registry, post: Registry) -> bool {
    post.name_seq() == pre.name_seq() && post.room_seq() == pre.room_seq()
}

impl Registry {
    /// The room names, in creation order.
    pub closed spec fn name_seq(self) -> Seq<Seq<char>> {
        self.names@.map_values(|s: String| s@)
    }

    /// The rooms, in creation order, in step with `name_seq`.
    pub closed spec fn room_seq(self) -> Seq<Room> {
        self.rooms@
    }

    /// How many rooms exist.
    pub open spec fn room_count(self) -> int {
        self.name_seq().len() as int
    }

    /// Whether a room of this name exists.
    pub open spec fn has_room(self, n: Seq<char>) -> bool {
        self.name_seq().contains(n)
    }

    /// The position of the room of this name (meaningful when it exists:
    /// names are unique).
    pub open spec fn index_of(self, n: Seq<char>) -> int {
        choose|i: int| 0 <= i < self.name_seq().len() && self.name_seq()[i] == n
    }

    /// The room of this name (meaningful when it exists).
    pub open spec fn room_of(self, n: Seq<char>) -> Room {
        self.room_seq()[self.index_of(n)]
    }

    /// The members of the room of this name; empty when no such room
    /// exists.
    pub open spec fn members_of(self, n: Seq<char>) -> Set<Seq<char>> {
        if self.has_room(n) {
            self.room_of(n).members()
        } else {
            Set::<Seq<char>>::empty()
        }
    }

    /// Whether a join of username `u` into room `n` would be accepted:
    /// exactly when `u` is not already present there.
    pub open spec fn join_allowed(self, u: Seq<char>, n: Seq<char>) -> bool {
        !self.members_of(n).contains(u)
    }

    /// Well-formedness: names and rooms in step, no name occurs twice, and
    /// every room is well-formed.
    pub closed spec fn wf(self) -> bool {
        &&& self.names@.len() == self.rooms@.len()
        &&& forall|i: int, j: int|
            0 <= i < j < self.name_seq().len() ==> self.name_seq()[i] != self.name_seq()[j]
        &&& forall|i: int| 0 <= i < self.rooms@.len() ==> (#[trigger] self.rooms@[i]).wf()
    }

    /// The registry's standing invariant: no room without members persists
    /// past the operation that emptied it.
    pub open spec fn no_empty_rooms(self) -> bool {
        forall|i: int|
            0 <= i < self.room_seq().len() ==> (#[trigger] self.room_seq()[i]).member_seq().len()
                > 0
    }

    /// Facts every well-formed registry affords its callers: rooms stand
    /// in step with the names, and each is well-formed.
    pub proof fn lemma_in_step(self)
        requires
            self.wf(),
        ensures
            self.room_seq().len() == self.name_seq().len(),
            forall|i: int| 0 <= i < self.room_seq().len() ==> (#[trigger] self.room_seq()[i]).wf(),
    {
    }

    /// A name found at a position is the name the registry resolves: names
    /// are unique.
    proof fn lemma_found(self, i: int, n: Seq<char>)
        requires
            self.wf(),
            0 <= i < self.name_seq().len(),
            self.name_seq()[i] == n,
        ensures
            self.has_room(n),
            self.index_of(n) == i,
    {
        assert(self.has_room(n));
        let j = self.index_of(n);
        if j != i {
            if j < i {
                assert(self.name_seq()[j] != self.name_seq()[i]);
            } else {
                assert(self.name_seq()[i] != self.name_seq()[j]);
            }
        }
    }

    /// Replacing one room by a well-formed room preserves the registry's
    /// well-formedness, and its standing invariant when the new room is
    /// not empty.
    proof fn lemma_update_preserves(pre: Registry, post: Registry, i: int)
        requires
            pre.wf(),
            0 <= i < pre.room_seq().len(),
            post.name_seq() == pre.name_seq(),
            post.room_seq() == pre.room_seq().update(i, post.room_seq()[i]),
            post.room_seq().len() == pre.room_seq().len(),
            post.room_seq()[i].wf(),
            post.names@.len() == pre.names@.len(),
            post.rooms@.len() == pre.rooms@.len(),
        ensures
            post.wf(),
            pre.no_empty_rooms() && post.room_seq()[i].member_seq().len() > 0
                ==> post.no_empty_rooms(),
    {
        assert forall|j: int| 0 <= j < post.rooms@.len() implies (
        #[trigger] post.rooms@[j]).wf() by {
            if j != i {
                assert(pre.rooms@[j].wf());
            }
        }
        if pre.no_empty_rooms() && post.room_seq()[i].member_seq().len() > 0 {
            assert forall|j: int| 0 <= j < post.room_seq().len() implies (
            #[trigger] post.room_seq()[j]).member_seq().len() > 0 by {
                if j != i {
                    assert(pre.room_seq()[j].member_seq().len() > 0);
                }
            }
        }
    }

    /// Creates an empty registry: no rooms at all.
    pub fn new() -> (r: Registry)
        ensures
            r.wf(),
            r.no_empty_rooms(),
            r.room_count() == 0,
            forall|n: Seq<char>| !(#[trigger] r.has_room(n)),
    {
        let r = Registry { names: Vec::new(), rooms: Vec::new() };
        proof {
            assert(r.name_seq() =~= Seq::<Seq<char>>::empty());
        }
        r
    }

    /// Looks up the position of the room of this name.
    fn find_room(&self, name: &String) -> (r: Option<usize>)
        requires
            self.wf(),
        ensures
            match r {
                Some(i) => self.has_room(name@) && i < self.name_seq().len() && i as int
                    == self.index_of(name@),
                None => !self.has_room(name@),
            },
    {
        let n = self.names.len();
        let mut i: usize = 0;
        while i < n
            invariant
                self.wf(),
                n == self.names@.len(),
                i <= n,
                forall|j: int| 0 <= j < i ==> self.name_seq()[j] != name@,
            decreases n - i,
        {
            if self.names[i] == *name {
                proof {
                    self.lemma_found(i as int, name@);
                }
                return Some(i);
            }
            i += 1;
        }
        proof {
            if self.has_room(name@) {
                let j = choose|j: int|
                    0 <= j < self.name_seq().len() && self.name_seq()[j] == name@;
                assert(self.name_seq()[j] != name@);
            }
        }
        None
    }

    /// Whether a room of this name currently exists.
    pub fn contains_room(&self, name: &String) -> (r: bool)
        requires
            self.wf(),
        ensures
            r == self.has_room(name@),
    {
        self.find_room(name).is_some()
    }

    /// How many members the room of this name has; zero when no such room
    /// exists.
    pub fn member_count_of(&self, name: &String) -> (r: usize)
        requires
            self.wf(),
        ensures
            self.has_room(name@) ==> r == self.room_of(name@).member_seq().len(),
            !self.has_room(name@) ==> r == 0,
    {
        match self.find_room(name) {
            Some(i) => self.rooms[i].member_count(),
            None => 0,
        }
    }

    /// The names of the rooms that currently exist, in creation order.
    pub fn room_names(&self) -> (r: Vec<String>)
        requires
            self.wf(),
        ensures
            r@.map_values(|s: String| s@) == self.name_seq(),
    {
        let n = self.names.len();
        let mut out: Vec<String> = Vec::new();
        let mut i: usize = 0;
        while i < n
            invariant
                n == self.names@.len(),
                i <= n,
                out@.len() == i,
                forall|j: int| 0 <= j < i ==> out@[j]@ == self.name_seq()[j],
            decreases n - i,
        {
            out.push(self.names[i].clone());
            i += 1;
        }
        proof {
            assert(out@.map_values(|s: String| s@) =~= self.name_seq());
        }
        out
    }

    /// The status line of the room listing: reports success exactly when
    /// at least one room exists.
    pub fn listing_status(&self) -> (r: String)
        requires
            self.wf(),
        ensures
            self.room_count() == 0 ==> r@ == "No rooms found yet!"@,
            self.room_count() > 0 ==> r@ == "Success!"@,
    {
        if self.names.len() == 0 {
            String::from_str("No rooms found yet!")
        } else {
            String::from_str("Success!")
        }
    }

    /// Resolves the room (creating it when absent) and attempts to join
    /// `username` into it, in one atomic step: rejected exactly when the
    /// name is already present in that room, and a room is never created
    /// without its first member. On success the returned subscription
    /// starts past every line already sent in the room.
    pub fn join_room(&mut self, username: &String, room_name: &String) -> (r: Option<usize>)
        requires
            old(self).wf(),
        ensures
            final(self).wf(),
            old(self).no_empty_rooms() ==> final(self).no_empty_rooms(),
            !old(self).join_allowed(username@, room_name@) ==> r is None && unchanged_registry(
                *old(self),
                *final(self),
            ),
            old(self).join_allowed(username@, room_name@) ==> (r matches Some(id) && {
                &&& final(self).has_room(room_name@)
                &&& final(self).members_of(room_name@) == old(self).members_of(
                    room_name@,
                ).insert(username@)
                &&& old(self).has_room(room_name@) ==> final(self).name_seq() == old(self).name_seq() && join_post(
                    old(self).room_of(room_name@),
                    final(self).room_of(room_name@),
                    username@,
                    id as int,
                )
                &&& !old(self).has_room(room_name@) ==> {
                    &&& final(self).name_seq() == old(self).name_seq().push(room_name@)
                    &&& id == 0
                    &&& final(self).room_of(room_name@).member_seq() == seq![username@]
                    &&& final(self).room_of(room_name@).chan().lines() == Seq::<Seq<char>>::empty()
                    &&& final(self).room_of(room_name@).chan().reader_count() == 1
                    &&& final(self).room_of(room_name@).chan().pending(0) == Seq::<
                        Seq<char>,
                    >::empty()
                    &&& !final(self).room_of(room_name@).chan().lagged(0)
                    &&& final(self).room_of(room_name@).chan().cap() == CHANNEL_CAPACITY
                }
                &&& forall|m: Seq<char>|
                    #![trigger final(self).has_room(m)]
                    #![trigger final(self).members_of(m)]
                    m != room_name@ ==> {
                        &&& final(self).has_room(m) == old(self).has_room(m)
                        &&& old(self).has_room(m) ==> final(self).room_of(m) == old(self).room_of(m)
                        &&& final(self).members_of(m) == old(self).members_of(m)
                    }
            }),
    {
        match self.find_room(room_name) {
            Some(i) => {
                let ghost pre = *self;
                let mut room = self.rooms.remove(i);
                let jr = room.try_join(username);
                self.rooms.insert(i, room);
                proof {
                    assert(self.rooms@ =~= pre.rooms@.update(i as int, self.rooms@[i as int]));
                    assert(self.name_seq() == pre.name_seq());
                    if pre.no_empty_rooms() {
                        assert(pre.room_seq()[i as int].member_seq().len() > 0);
                    }
                    Self::lemma_update_preserves(pre, *self, i as int);
                    self.lemma_found(i as int, room_name@);
                    if jr is None {
                        assert(self.rooms@ =~= pre.rooms@);
                    } else {
                        assert forall|m: Seq<char>| m != room_name@ implies {
                            &&& self.has_room(m) == pre.has_room(m)
                            &&& pre.has_room(m) ==> self.room_of(m) == pre.room_of(m)
                            &&& self.members_of(m) == pre.members_of(m)
                        } by {
                            if pre.has_room(m) {
                                pre.lemma_found(pre.index_of(m), m);
                                self.lemma_found(pre.index_of(m), m);
                            }
                            if self.has_room(m) {
                                self.lemma_found(self.index_of(m), m);
                                pre.lemma_found(self.index_of(m), m);
                            }
                        }
                    }
                }
                jr
            },
            None => {
                let ghost pre = *self;
                let mut room = Room::new();
                let jr = room.try_join(username);
                let ghost i = pre.names@.len() as int;
                self.names.push(room_name.clone());
                self.rooms.push(room);
                proof {
                    assert(self.name_seq() =~= pre.name_seq().push(room_name@));
                    assert(self.wf()) by {
                        assert forall|p: int, q: int| 0 <= p < q < self.name_seq().len() implies
                            self.name_seq()[p] != self.name_seq()[q] by {
                            if q == i {
                                if self.name_seq()[p] == room_name@ {
                                    assert(pre.name_seq()[p] == room_name@);
                                    assert(pre.has_room(room_name@));
                                }
                            }
                        }
                        assert forall|j: int| 0 <= j < self.rooms@.len() implies (
                        #[trigger] self.rooms@[j]).wf() by {
                            if j < i {
                                assert(pre.rooms@[j].wf());
                            }
                        }
                    }
                    if pre.no_empty_rooms() {
                        assert forall|j: int| 0 <= j < self.room_seq().len() implies (
                        #[trigger] self.room_seq()[j]).member_seq().len() > 0 by {
                            if j < i {
                                assert(pre.room_seq()[j].member_seq().len() > 0);
                            }
                        }
                    }
                    self.lemma_found(i, room_name@);
                    assert(self.room_of(room_name@).member_seq() =~= seq![username@]);
                    assert(self.members_of(room_name@) =~= pre.members_of(room_name@).insert(
                        username@,
                    ));
                    assert forall|m: Seq<char>| m != room_name@ implies {
                        &&& self.has_room(m) == pre.has_room(m)
                        &&& pre.has_room(m) ==> self.room_of(m) == pre.room_of(m)
                        &&& self.members_of(m) == pre.members_of(m)
                    } by {
                        if pre.has_room(m) {
                            pre.lemma_found(pre.index_of(m), m);
                            self.lemma_found(pre.index_of(m), m);
                        }
                        if self.has_room(m) {
                            let j = self.index_of(m);
                            self.lemma_found(j, m);
                            assert(pre.name_seq()[j] == m);
                            pre.lemma_found(j, m);
                        }
                    }
                }
                jr
            },
        }
    }

    /// Broadcasts a line into the room of this name; reports whether such
    /// a room existed. Membership and every other room are untouched, and
    /// the sender never blocks: a full buffer drops its oldest line
    /// instead.
    pub fn send_to_room(&mut self, room_name: &String, line: String) -> (ok: bool)
        requires
            old(self).wf(),
        ensures
            final(self).wf(),
            old(self).no_empty_rooms() ==> final(self).no_empty_rooms(),
            !old(self).has_room(room_name@) ==> !ok && unchanged_registry(
                *old(self),
                *final(self),
            ),
            old(self).has_room(room_name@) ==> ok && {
                &&& final(self).name_seq() == old(self).name_seq()
                &&& send_post(
                    old(self).room_of(room_name@),
                    final(self).room_of(room_name@),
                    line@,
                )
                &&& final(self).members_of(room_name@) == old(self).members_of(room_name@)
                &&& forall|m: Seq<char>|
                    #![trigger final(self).has_room(m)]
                    #![trigger final(self).members_of(m)]
                    m != room_name@ ==> {
                        &&& final(self).has_room(m) == old(self).has_room(m)
                        &&& old(self).has_room(m) ==> final(self).room_of(m) == old(self).room_of(m)
                        &&& final(self).members_of(m) == old(self).members_of(m)
                    }
            },
    {
        match self.find_room(room_name) {
            Some(i) => {
                let ghost pre = *self;
                let mut room = self.rooms.remove(i);
                room.send_line(line);
                self.rooms.insert(i, room);
                proof {
                    assert(self.rooms@ =~= pre.rooms@.update(i as int, self.rooms@[i as int]));
                    assert(self.name_seq() == pre.name_seq());
                    if pre.no_empty_rooms() {
                        assert(pre.room_seq()[i as int].member_seq().len() > 0);
                    }
                    Self::lemma_update_preserves(pre, *self, i as int);
                    self.lemma_found(i as int, room_name@);
                    assert forall|m: Seq<char>| m != room_name@ implies {
                        &&& self.has_room(m) == pre.has_room(m)
                        &&& pre.has_room(m) ==> self.room_of(m) == pre.room_of(m)
                        &&& self.members_of(m) == pre.members_of(m)
                    } by {
                        if pre.has_room(m) {
                            pre.lemma_found(pre.index_of(m), m);
                            self.lemma_found(pre.index_of(m), m);
                        }
                        if self.has_room(m) {
                            self.lemma_found(self.index_of(m), m);
                            pre.lemma_found(self.index_of(m), m);
                        }
                    }
                }
                true
            },
            None => false,
        }
    }

    /// Polls a subscription in the room of this name. Closed when the room
    /// or the subscription does not exist; otherwise one lag report after
    /// a drop, or the next pending line in send order, or nothing when the
    /// subscription is caught up.
    pub fn poll_room(&mut self, room_name: &String, reader: usize) -> (r: Delivery)
        requires
            old(self).wf(),
        ensures
            final(self).wf(),
            old(self).no_empty_rooms() ==> final(self).no_empty_rooms(),
            (!old(self).has_room(room_name@) || reader as int >= old(self).room_of(
                room_name@,
            ).chan().reader_count()) ==> r is Closed && unchanged_registry(
                *old(self),
                *final(self),
            ),
            old(self).has_room(room_name@) && (reader as int) < old(self).room_of(
                room_name@,
            ).chan().reader_count() ==> {
                &&& final(self).name_seq() == old(self).name_seq()
                &&& !(r is Closed)
                &&& (r matches Delivery::Line(l) ==> recv_post(
                    old(self).room_of(room_name@),
                    final(self).room_of(room_name@),
                    reader as int,
                    Recv::Line(l),
                ))
                &&& (r is Lagged ==> recv_post(
                    old(self).room_of(room_name@),
                    final(self).room_of(room_name@),
                    reader as int,
                    Recv::Lagged,
                ))
                &&& (r is Empty ==> recv_post(
                    old(self).room_of(room_name@),
                    final(self).room_of(room_name@),
                    reader as int,
                    Recv::Empty,
                ))
                &&& (old(self).room_of(room_name@).chan().lagged(reader as int) ==> r is Lagged)
                &&& (!old(self).room_of(room_name@).chan().lagged(reader as int) && old(self).room_of(room_name@).chan().pending(reader as int).len() == 0 ==> r is Empty)
                &&& (!old(self).room_of(room_name@).chan().lagged(reader as int) && old(self).room_of(room_name@).chan().pending(reader as int).len() > 0 ==> r is Line)
                &&& forall|m: Seq<char>|
                    #![trigger final(self).has_room(m)]
                    #![trigger final(self).members_of(m)]
                    m != room_name@ ==> {
                        &&& final(self).has_room(m) == old(self).has_room(m)
                        &&& old(self).has_room(m) ==> final(self).room_of(m) == old(self).room_of(m)
                        &&& final(self).members_of(m) == old(self).members_of(m)
                    }
            },
    {
        match self.find_room(room_name) {
            Some(i) => {
                let in_range = reader < self.rooms[i].reader_count_exec();
                if !in_range {
                    return Delivery::Closed;
                }
                let ghost pre = *self;
                let mut room = self.rooms.remove(i);
                let rr = room.recv_line(reader);
                self.rooms.insert(i, room);
                proof {
                    assert(self.rooms@ =~= pre.rooms@.update(i as int, self.rooms@[i as int]));
                    assert(self.name_seq() == pre.name_seq());
                    if pre.no_empty_rooms() {
                        assert(pre.room_seq()[i as int].member_seq().len() > 0);
                    }
                    Self::lemma_update_preserves(pre, *self, i as int);
                    self.lemma_found(i as int, room_name@);
                    assert forall|m: Seq<char>| m != room_name@ implies {
                        &&& self.has_room(m) == pre.has_room(m)
                        &&& pre.has_room(m) ==> self.room_of(m) == pre.room_of(m)
                        &&& self.members_of(m) == pre.members_of(m)
                    } by {
                        if pre.has_room(m) {
                            pre.lemma_found(pre.index_of(m), m);
                            self.lemma_found(pre.index_of(m), m);
                        }
                        if self.has_room(m) {
                            self.lemma_found(self.index_of(m), m);
                            pre.lemma_found(self.index_of(m), m);
                        }
                    }
                }
                match rr {
                    Recv::Line(l) => Delivery::Line(l),
                    Recv::Lagged => Delivery::Lagged,
                    Recv::Empty => Delivery::Empty,
                }
            },
            None => Delivery::Closed,
        }
    }

    /// Removes the room of this name exactly when it exists and has no
    /// members; re-checks emptiness within the same atomic step, so a room
    /// that regained a member is never torn down.
    pub fn remove_if_empty(&mut self, room_name: &String)
        requires
            old(self).wf(),
        ensures
            final(self).wf(),
            old(self).no_empty_rooms() ==> final(self).no_empty_rooms(),
            !old(self).has_room(room_name@) || old(self).room_of(room_name@).member_seq().len() > 0
                ==> unchanged_registry(*old(self), *final(self)),
            old(self).has_room(room_name@) && old(self).room_of(room_name@).member_seq().len() == 0
                ==> {
                &&& !final(self).has_room(room_name@)
                &&& final(self).name_seq() == old(self).name_seq().remove(
                    old(self).index_of(room_name@),
                )
                &&& forall|m: Seq<char>|
                    #![trigger final(self).has_room(m)]
                    #![trigger final(self).members_of(m)]
                    m != room_name@ ==> {
                        &&& final(self).has_room(m) == old(self).has_room(m)
                        &&& old(self).has_room(m) ==> final(self).room_of(m) == old(self).room_of(m)
                        &&& final(self).members_of(m) == old(self).members_of(m)
                    }
            },
    {
        match self.find_room(room_name) {
            Some(i) => {
                if self.rooms[i].member_count() == 0 {
                    let ghost pre = *self;
                    self.names.remove(i);
                    self.rooms.remove(i);
                    proof {
                        assert(self.name_seq() =~= pre.name_seq().remove(i as int));
                        assert(self.wf()) by {
                            assert forall|p: int, q: int|
                                0 <= p < q < self.name_seq().len() implies self.name_seq()[p]
                                != self.name_seq()[q] by {
                                let p0 = if p < i as int { p } else { p + 1 };
                                let q0 = if q < i as int { q } else { q + 1 };
                                assert(pre.name_seq()[p0] != pre.name_seq()[q0]);
                            }
                            assert forall|j: int| 0 <= j < self.rooms@.len() implies (
                            #[trigger] self.rooms@[j]).wf() by {
                                let j0 = if j < i as int { j } else { j + 1 };
                                assert(pre.rooms@[j0].wf());
                            }
                        }
                        if pre.no_empty_rooms() {
                            assert forall|j: int| 0 <= j < self.room_seq().len() implies (
                            #[trigger] self.room_seq()[j]).member_seq().len() > 0 by {
                                let j0 = if j < i as int { j } else { j + 1 };
                                assert(pre.room_seq()[j0].member_seq().len() > 0);
                            }
                        }
                        assert(!self.has_room(room_name@)) by {
                            if self.has_room(room_name@) {
                                let j = choose|j: int|
                                    0 <= j < self.name_seq().len() && self.name_seq()[j]
                                        == room_name@;
                                let j0 = if j < i as int { j } else { j + 1 };
                                assert(pre.name_seq()[j0] == room_name@);
                                pre.lemma_found(j0, room_name@);
                            }
                        }
                        assert forall|m: Seq<char>| m != room_name@ implies {
                            &&& self.has_room(m) == pre.has_room(m)
                            &&& pre.has_room(m) ==> self.room_of(m) == pre.room_of(m)
                            &&& self.members_of(m) == pre.members_of(m)
                        } by {
                            if pre.has_room(m) {
                                let j = pre.index_of(m);
                                pre.lemma_found(j, m);
                                let j1 = if j < i as int { j } else { j - 1 };
                                assert(self.name_seq()[j1] == m);
                                self.lemma_found(j1, m);
                            }
                            if self.has_room(m) {
                                let j = self.index_of(m);
                                self.lemma_found(j, m);
                                let j0 = if j < i as int { j } else { j + 1 };
                                assert(pre.name_seq()[j0] == m);
                                pre.lemma_found(j0, m);
                            }
                        }
                    }
                }
            },
            None => {},
        }
    }

    /// Ends a session in the room of this name: broadcasts the leave
    /// announcement, removes the username (a no-op when absent), and tears
    /// the room down when it is now empty. A missing room is absorbed as a
    /// no-op rather than treated as fatal.
    pub fn close_session(&mut self, room_name: &String, username: &String)
        requires
            old(self).wf(),
        ensures
            final(self).wf(),
            old(self).no_empty_rooms() ==> final(self).no_empty_rooms(),
            !old(self).has_room(room_name@) ==> unchanged_registry(*old(self), *final(self)),
            !final(self).members_of(room_name@).contains(username@),
            old(self).has_room(room_name@) ==> exists|mid: Room, fin: Room| {
                &&& send_post(old(self).room_of(room_name@), mid, spec_left_line(username@))
                &&& #[trigger] leave_post(mid, fin, username@)
                &&& fin.member_seq().len() == 0 ==> !final(self).has_room(room_name@) && final(self).name_seq() == old(self).name_seq().remove(old(self).index_of(room_name@))
                &&& fin.member_seq().len() > 0 ==> final(self).has_room(room_name@) && final(self).name_seq() == old(self).name_seq() && final(self).room_of(room_name@) == fin
            },
            old(self).has_room(room_name@) ==> forall|m: Seq<char>|
                #![trigger final(self).has_room(m)]
                #![trigger final(self).members_of(m)]
                m != room_name@ ==> {
                    &&& final(self).has_room(m) == old(self).has_room(m)
                    &&& old(self).has_room(m) ==> final(self).room_of(m) == old(self).room_of(m)
                    &&& final(self).members_of(m) == old(self).members_of(m)
                },
    {
        match self.find_room(room_name) {
            Some(i) => {
                let ghost pre = *self;
                let mut room = self.rooms.remove(i);
                room.send_line(left_line(username));
                let ghost mid = room;
                room.leave(username);
                let ghost fin = room;
                let keep = room.member_count() > 0;
                if keep {
                    self.rooms.insert(i, room);
                    proof {
                        assert(self.rooms@ =~= pre.rooms@.update(i as int, fin));
                        assert(self.name_seq() == pre.name_seq());
                        Self::lemma_update_preserves(pre, *self, i as int);
                        self.lemma_found(i as int, room_name@);
                        assert forall|m: Seq<char>| m != room_name@ implies {
                            &&& self.has_room(m) == pre.has_room(m)
                            &&& pre.has_room(m) ==> self.room_of(m) == pre.room_of(m)
                            &&& self.members_of(m) == pre.members_of(m)
                        } by {
                            if pre.has_room(m) {
                                pre.lemma_found(pre.index_of(m), m);
                                self.lemma_found(pre.index_of(m), m);
                            }
                            if self.has_room(m) {
                                self.lemma_found(self.index_of(m), m);
                                pre.lemma_found(self.index_of(m), m);
                            }
                        }
                    }
                } else {
                    self.names.remove(i);
                    proof {
                        assert(self.name_seq() =~= pre.name_seq().remove(i as int));
                        assert(self.wf()) by {
                            assert forall|p: int, q: int|
                                0 <= p < q < self.name_seq().len() implies self.name_seq()[p]
                                != self.name_seq()[q] by {
                                let p0 = if p < i as int { p } else { p + 1 };
                                let q0 = if q < i as int { q } else { q + 1 };
                                assert(pre.name_seq()[p0] != pre.name_seq()[q0]);
                            }
                            assert forall|j: int| 0 <= j < self.rooms@.len() implies (
                            #[trigger] self.rooms@[j]).wf() by {
                                let j0 = if j < i as int { j } else { j + 1 };
                                assert(pre.rooms@[j0].wf());
                            }
                        }
                        if pre.no_empty_rooms() {
                            assert forall|j: int| 0 <= j < self.room_seq().len() implies (
                            #[trigger] self.room_seq()[j]).member_seq().len() > 0 by {
                                let j0 = if j < i as int { j } else { j + 1 };
                                assert(pre.room_seq()[j0].member_seq().len() > 0);
                            }
                        }
                        assert(!self.has_room(room_name@)) by {
                            if self.has_room(room_name@) {
                                let j = choose|j: int|
                                    0 <= j < self.name_seq().len() && self.name_seq()[j]
                                        == room_name@;
                                let j0 = if j < i as int { j } else { j + 1 };
                                assert(pre.name_seq()[j0] == room_name@);
                                pre.lemma_found(j0, room_name@);
                            }
                        }
                        assert forall|m: Seq<char>| m != room_name@ implies {
                            &&& self.has_room(m) == pre.has_room(m)
                            &&& pre.has_room(m) ==> self.room_of(m) == pre.room_of(m)
                            &&& self.members_of(m) == pre.members_of(m)
                        } by {
                            if pre.has_room(m) {
                                let j = pre.index_of(m);
                                pre.lemma_found(j, m);
                                let j1 = if j < i as int { j } else { j - 1 };
                                assert(self.name_seq()[j1] == m);
                                self.lemma_found(j1, m);
                            }
                            if self.has_room(m) {
                                let j = self.index_of(m);
                                self.lemma_found(j, m);
                                let j0 = if j < i as int { j } else { j + 1 };
                                assert(pre.name_seq()[j0] == m);
                                pre.lemma_found(j0, m);
                            }
                        }
                    }
                }
                proof {
                    pre.lemma_found(i as int, room_name@);
                    assert(send_post(pre.room_of(room_name@), mid, spec_left_line(username@)));
                    assert(leave_post(mid, fin, username@));
                }
            },
            None => {},
        }
    }
}

} // verus!
