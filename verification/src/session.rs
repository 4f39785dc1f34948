//! One client's session: handshake, activity, and teardown.
//!
//! A session is born waiting for its handshake. A handshake that decodes
//! to a join request either enters the room (creating it when absent) and
//! announces the arrival, or is rejected when the username is taken; a
//! handshake that does not decode terminates the session at once, with no
//! cleanup owed. An active session relays chat lines into the room and
//! drains its subscription; closing it announces the departure, removes
//! the member, and tears the room down when it is now empty.

use vstd::prelude::*;

use crate::lines::{chat_line, joined_line, spec_chat_line, spec_joined_line, spec_left_line};
use crate::registry::{unchanged_registry, Delivery, Registry};
use crate::room::{leave_post, recv_post, send_post, Room};
use crate::channel::Recv;

verus! {

/// A decoded handshake: the username and the room (channel) to join.
pub struct JoinRequest {
    pub username: String,
    pub channel: String,
}

/// Where a session stands in its lifecycle.
pub enum Phase {
    /// Waiting for the handshake; no room membership is held.
    Handshaking,
    /// Joined to a room, relaying lines.
    Active,
    /// Finished; no room membership is held any more.
    Terminated,
}

/// What the handshake came to.
pub enum HandshakeOutcome {
    /// The first message did not decode to a join request.
    Malformed,
    /// The username is already present in the requested room.
    NameTaken,
    /// The session joined the room and announced itself.
    Accepted,
}

/// One client's session.
pub struct Session {
    phase: Phase,
    username: String,
    room: String,
    reader: usize,
}

impl Session {
    /// Whether the session still waits for its handshake.
    pub closed spec fn is_handshaking(self) -> bool {
        self.phase is Handshaking
    }

    /// Whether the session is joined to its room.
    pub closed spec fn is_active(self) -> bool {
        self.phase is Active
    }

    /// Whether the session is finished.
    pub closed spec fn is_terminated(self) -> bool {
        self.phase is Terminated
    }

    /// The username fixed by the handshake.
    pub closed spec fn username_view(self) -> Seq<char> {
        self.username@
    }

    /// The room name fixed by the handshake.
    pub closed spec fn room_view(self) -> Seq<char> {
        self.room@
    }

    /// The session's subscription in its room's channel.
    pub closed spec fn reader_id(self) -> int {
        self.reader as int
    }

    /// An active session's standing with respect to a registry: its room
    /// exists, holds its username, and carries its subscription.
    pub open spec fn active_in(self, reg: Registry) -> bool {
        &&& self.is_active()
        &&& reg.has_room(self.room_view())
        &&& reg.room_of(self.room_view()).members().contains(self.username_view())
        &&& self.reader_id() < reg.room_of(self.room_view()).chan().reader_count()
    }

    /// A fresh session, waiting for its handshake.
    pub fn new() -> (s: Session)
        ensures
            s.is_handshaking(),
    {
        Session { phase: Phase::Handshaking, username: String::new(), room: String::new(), reader: 0 }
    }

    /// Handles the handshake. `request` is the decoded first message, or
    /// nothing when it did not decode to a join request; in that case a
    /// failure notice is owed to the client and the session terminates
    /// with no cleanup. A taken username terminates the session likewise.
    /// Otherwise the session joins (the room is created when absent) and
    /// broadcasts its arrival, which its own fresh subscription observes
    /// as the first pending line.
    #[verifier::rlimit(60)]
    #[verifier::spinoff_prover]
    pub fn handshake(&mut self, reg: &mut Registry, request: Option<JoinRequest>) -> (r:
        HandshakeOutcome)
        requires
            old(self).is_handshaking(),
            old(reg).wf(),
        ensures
            final(reg).wf(),
            old(reg).no_empty_rooms() ==> final(reg).no_empty_rooms(),
            request is None ==> r is Malformed && final(self).is_terminated()
                && unchanged_registry(*old(reg), *final(reg)),
            request matches Some(q) ==> !old(reg).join_allowed(q.username@, q.channel@) ==> r
                is NameTaken && final(self).is_terminated() && unchanged_registry(
                *old(reg),
                *final(reg),
            ),
            request matches Some(q) ==> old(reg).join_allowed(q.username@, q.channel@) ==> {
                &&& r is Accepted
                &&& final(self).is_active()
                &&& final(self).username_view() == q.username@
                &&& final(self).room_view() == q.channel@
                &&& final(self).active_in(*final(reg))
                &&& final(reg).has_room(q.channel@)
                &&& final(reg).members_of(q.channel@) == old(reg).members_of(q.channel@).insert(
                    q.username@,
                )
                &&& final(reg).room_of(q.channel@).chan().pending(final(self).reader_id()) == seq![
                    spec_joined_line(q.username@),
                ]
                &&& !final(reg).room_of(q.channel@).chan().lagged(final(self).reader_id())
                &&& old(reg).has_room(q.channel@) ==> forall|i: int|
                    0 <= i < old(reg).room_of(final(self).room_view()).chan().reader_count()
                        ==> (#[trigger] final(reg).room_of(final(self).room_view()).chan().pending(
                        i,
                    )) == if old(reg).room_of(final(self).room_view()).chan().send_drops_for(i) {
                        old(reg).room_of(final(self).room_view()).chan().pending(
                            i,
                        ).drop_first().push(spec_joined_line(final(self).username_view()))
                    } else {
                        old(reg).room_of(final(self).room_view()).chan().pending(i).push(
                            spec_joined_line(final(self).username_view()),
                        )
                    }
                &&& forall|m: Seq<char>|
                    #![trigger final(reg).has_room(m)]
                    #![trigger final(reg).members_of(m)]
                    m != final(self).room_view() ==> {
                        &&& final(reg).has_room(m) == old(reg).has_room(m)
                        &&& old(reg).has_room(m) ==> final(reg).room_of(m) == old(reg).room_of(m)
                        &&& final(reg).members_of(m) == old(reg).members_of(m)
                    }
            },
    {
        match request {
            None => {
                self.phase = Phase::Terminated;
                HandshakeOutcome::Malformed
            },
            Some(q) => {
                match reg.join_room(&q.username, &q.channel) {
                    None => {
                        self.phase = Phase::Terminated;
                        HandshakeOutcome::NameTaken
                    },
                    Some(id) => {
                        let ghost mid = *reg;
                        let line = joined_line(&q.username);
                        let ok = reg.send_to_room(&q.channel, line);
                        self.phase = Phase::Active;
                        self.username = q.username;
                        self.room = q.channel;
                        self.reader = id;
                        proof {
                            assert(ok);
                            if old(reg).has_room(self.room@) {
                                mid.room_of(self.room@).lemma_wf_bounds();
                            }
                            assert(!mid.room_of(self.room@).chan().send_drops_for(id as int));
                            assert(reg.room_of(self.room@).chan().pending(id as int) =~= seq![
                                spec_joined_line(self.username@),
                            ]);
                            if old(reg).has_room(self.room@) {
                                assert forall|i: int|
                                    0 <= i < old(reg).room_of(self.room@).chan().reader_count()
                                    implies (#[trigger] reg.room_of(self.room@).chan().pending(i))
                                    == if old(reg).room_of(self.room@).chan().send_drops_for(i) {
                                        old(reg).room_of(self.room@).chan().pending(
                                            i,
                                        ).drop_first().push(spec_joined_line(self.username@))
                                    } else {
                                        old(reg).room_of(self.room@).chan().pending(i).push(
                                            spec_joined_line(self.username@),
                                        )
                                    } by {
                                    assert(mid.room_of(self.room@).chan().pending(i) == old(
                                        reg,
                                    ).room_of(self.room@).chan().pending(i));
                                }
                            }
                        }
                        HandshakeOutcome::Accepted
                    },
                }
            },
        }
    }

    /// Relays one inbound chat line: broadcasts it to the session's room
    /// prefixed with the username. Reports false, changing nothing, when
    /// the session is not active or its room is gone.
    pub fn send_chat(&self, reg: &mut Registry, text: &String) -> (ok: bool)
        requires
            old(reg).wf(),
        ensures
            final(reg).wf(),
            old(reg).no_empty_rooms() ==> final(reg).no_empty_rooms(),
            !(self.is_active() && old(reg).has_room(self.room_view())) ==> !ok
                && unchanged_registry(*old(reg), *final(reg)),
            self.is_active() && old(reg).has_room(self.room_view()) ==> ok && {
                &&& final(reg).name_seq() == old(reg).name_seq()
                &&& send_post(
                    old(reg).room_of(self.room_view()),
                    final(reg).room_of(self.room_view()),
                    spec_chat_line(self.username_view(), text@),
                )
                &&& final(reg).members_of(self.room_view()) == old(reg).members_of(
                    self.room_view(),
                )
                &&& forall|m: Seq<char>|
                    #![trigger final(reg).has_room(m)]
                    #![trigger final(reg).members_of(m)]
                    m != self.room_view() ==> {
                        &&& final(reg).has_room(m) == old(reg).has_room(m)
                        &&& old(reg).has_room(m) ==> final(reg).room_of(m) == old(reg).room_of(m)
                        &&& final(reg).members_of(m) == old(reg).members_of(m)
                    }
            },
    {
        match self.phase {
            Phase::Active => reg.send_to_room(&self.room, chat_line(&self.username, text)),
            _ => false,
        }
    }

    /// Polls the session's subscription: the next line broadcast in its
    /// room, in send order, or a single lag report after a drop, or
    /// nothing when caught up. Closed when the session is not active or
    /// its room is gone.
    pub fn poll(&self, reg: &mut Registry) -> (r: Delivery)
        requires
            old(reg).wf(),
        ensures
            final(reg).wf(),
            old(reg).no_empty_rooms() ==> final(reg).no_empty_rooms(),
            !(self.is_active() && old(reg).has_room(self.room_view()) && self.reader_id() < old(
                reg,
            ).room_of(self.room_view()).chan().reader_count()) ==> r is Closed
                && unchanged_registry(*old(reg), *final(reg)),
            self.is_active() && old(reg).has_room(self.room_view()) && self.reader_id() < old(
                reg,
            ).room_of(self.room_view()).chan().reader_count() ==> {
                &&& final(reg).name_seq() == old(reg).name_seq()
                &&& !(r is Closed)
                &&& (r matches Delivery::Line(l) ==> recv_post(
                    old(reg).room_of(self.room_view()),
                    final(reg).room_of(self.room_view()),
                    self.reader_id(),
                    Recv::Line(l),
                ))
                &&& (r is Lagged ==> recv_post(
                    old(reg).room_of(self.room_view()),
                    final(reg).room_of(self.room_view()),
                    self.reader_id(),
                    Recv::Lagged,
                ))
                &&& (r is Empty ==> recv_post(
                    old(reg).room_of(self.room_view()),
                    final(reg).room_of(self.room_view()),
                    self.reader_id(),
                    Recv::Empty,
                ))
                &&& (old(reg).room_of(self.room_view()).chan().lagged(self.reader_id()) ==> r
                    is Lagged)
                &&& (!old(reg).room_of(self.room_view()).chan().lagged(self.reader_id()) && old(
                    reg,
                ).room_of(self.room_view()).chan().pending(self.reader_id()).len() == 0 ==> r
                    is Empty)
                &&& (!old(reg).room_of(self.room_view()).chan().lagged(self.reader_id()) && old(
                    reg,
                ).room_of(self.room_view()).chan().pending(self.reader_id()).len() > 0 ==> r
                    is Line)
                &&& forall|m: Seq<char>|
                    #![trigger final(reg).has_room(m)]
                    #![trigger final(reg).members_of(m)]
                    m != self.room_view() ==> {
                        &&& final(reg).has_room(m) == old(reg).has_room(m)
                        &&& old(reg).has_room(m) ==> final(reg).room_of(m) == old(reg).room_of(m)
                        &&& final(reg).members_of(m) == old(reg).members_of(m)
                    }
            },
    {
        match self.phase {
            Phase::Active => reg.poll_room(&self.room, self.reader),
            _ => Delivery::Closed,
        }
    }

    /// Ends the session. An active session broadcasts its departure,
    /// leaves its room, and has the room torn down when it is now empty;
    /// cleanup runs unconditionally, even after an abnormal loop end. A
    /// session that never joined terminates with nothing to clean up.
    pub fn close(&mut self, reg: &mut Registry)
        requires
            old(reg).wf(),
        ensures
            final(reg).wf(),
            old(reg).no_empty_rooms() ==> final(reg).no_empty_rooms(),
            final(self).is_terminated(),
            !old(self).is_active() ==> unchanged_registry(*old(reg), *final(reg)),
            old(self).is_active() ==> {
                &&& !final(reg).members_of(old(self).room_view()).contains(
                    old(self).username_view(),
                )
                &&& !old(reg).has_room(old(self).room_view()) ==> unchanged_registry(
                    *old(reg),
                    *final(reg),
                )
                &&& old(reg).has_room(old(self).room_view()) ==> exists|mid: Room, fin: Room| {
                    &&& send_post(
                        old(reg).room_of(old(self).room_view()),
                        mid,
                        spec_left_line(old(self).username_view()),
                    )
                    &&& #[trigger] leave_post(mid, fin, old(self).username_view())
                    &&& fin.member_seq().len() == 0 ==> !final(reg).has_room(
                        old(self).room_view(),
                    )
                    &&& fin.member_seq().len() > 0 ==> final(reg).has_room(old(self).room_view())
                        && final(reg).room_of(old(self).room_view()) == fin
                }
                &&& old(reg).has_room(old(self).room_view()) ==> forall|m: Seq<char>|
                    #![trigger final(reg).has_room(m)]
                    #![trigger final(reg).members_of(m)]
                    m != old(self).room_view() ==> {
                        &&& final(reg).has_room(m) == old(reg).has_room(m)
                        &&& old(reg).has_room(m) ==> final(reg).room_of(m) == old(reg).room_of(m)
                        &&& final(reg).members_of(m) == old(reg).members_of(m)
                    }
            },
    {
        match self.phase {
            Phase::Active => {
                reg.close_session(&self.room, &self.username);
                self.phase = Phase::Terminated;
            },
            _ => {
                self.phase = Phase::Terminated;
            },
        }
    }
}

} // verus!
