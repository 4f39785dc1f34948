//! The relay's laws, stated and proved over the same views and
//! transition relations that the operations' contracts use.

use vstd::prelude::*;

use crate::lines::spec_chat_line;
use crate::registry::Registry;
use crate::room::{join_post, leave_post, send_post, Room};

verus! {

/// Uniqueness: a well-formed room never holds the same username twice, so
/// at most one active session holds a given name in a given room.
pub proof fn law_unique_membership(room: Room, i: int, j: int)
    requires
        room.wf(),
        0 <= i < j < room.member_seq().len(),
    ensures
        room.member_seq()[i] != room.member_seq()[j],
{
    room.lemma_distinct_members(i, j);
}

/// Uniqueness: while a username is present in a room, a join of that
/// username into that room is denied (joining is allowed exactly for
/// absent names).
pub proof fn law_second_join_denied(reg: Registry, u: Seq<char>, n: Seq<char>)
    requires
        reg.members_of(n).contains(u),
    ensures
        !reg.join_allowed(u, n),
{
}

/// Uniqueness: once the username has left the room, a join of that
/// username is allowed again.
pub proof fn law_rejoin_after_leave(pre: Room, post: Room, u: Seq<char>)
    requires
        leave_post(pre, post, u),
    ensures
        !post.members().contains(u),
{
}

/// Isolation: uniqueness is per room. Joining a username into one room
/// leaves its standing in every other room untouched, so the same name
/// may be active in two rooms at once.
pub proof fn law_isolation(
    pre: Registry,
    post: Registry,
    u: Seq<char>,
    n1: Seq<char>,
    n2: Seq<char>,
)
    requires
        n1 != n2,
        pre.members_of(n1).contains(u),
        post.members_of(n2) == pre.members_of(n2).insert(u),
        post.members_of(n1) == pre.members_of(n1),
    ensures
        post.members_of(n1).contains(u),
        post.members_of(n2).contains(u),
{
}

/// Fan-out: a line sent on a room's channel ends up last among the
/// pending lines of every reader, the sender's own subscription included
/// (delivery is symmetric, as with the join announcement).
pub proof fn law_fan_out(pre: Room, post: Room, sender: Seq<char>, text: Seq<char>, i: int)
    requires
        send_post(pre, post, spec_chat_line(sender, text)),
        0 <= i < pre.chan().reader_count(),
    ensures
        post.chan().pending(i).len() > 0,
        post.chan().pending(i).last() == spec_chat_line(sender, text),
{
    if pre.chan().send_drops_for(i) {
        assert(post.chan().pending(i) == pre.chan().pending(i).drop_first().push(
            spec_chat_line(sender, text),
        ));
    } else {
        assert(post.chan().pending(i) == pre.chan().pending(i).push(spec_chat_line(sender, text)));
    }
}

/// Fan-out: absent backpressure drop, nothing is lost: a reader whose
/// buffer did not overflow keeps every line it had pending and gains the
/// new one, in send order.
pub proof fn law_fan_out_no_drop(pre: Room, post: Room, line: Seq<char>, i: int)
    requires
        send_post(pre, post, line),
        0 <= i < pre.chan().reader_count(),
        !pre.chan().send_drops_for(i),
    ensures
        post.chan().pending(i) == pre.chan().pending(i).push(line),
        post.chan().lagged(i) == pre.chan().lagged(i),
{
}

/// A subscription never replays: a fresh reader starts with nothing
/// pending, so it observes only lines sent after it subscribed.
pub proof fn law_no_replay(pre: Room, post: Room, u: Seq<char>, id: int)
    requires
        join_post(pre, post, u, id),
    ensures
        post.chan().pending(id) == Seq::<Seq<char>>::empty(),
{
}

/// Lifecycle: in a registry whose standing invariant holds, a room exists
/// exactly while it has at least one member: absent before any join,
/// present from the first successful join, absent again once the last
/// member's leave has completed.
pub proof fn law_lifecycle(reg: Registry, n: Seq<char>)
    requires
        reg.wf(),
        reg.no_empty_rooms(),
    ensures
        reg.has_room(n) <==> reg.members_of(n) != Set::<Seq<char>>::empty(),
{
    if reg.has_room(n) {
        reg.lemma_in_step();
        let i = reg.index_of(n);
        assert(0 <= i < reg.name_seq().len() && reg.name_seq()[i] == n);
        assert(reg.room_seq()[i].member_seq().len() > 0);
        let room = reg.room_of(n);
        assert(room.member_seq().len() > 0);
        let first = room.member_seq()[0];
        assert(room.member_seq().contains(first));
        assert(room.members().contains(first));
        assert(reg.members_of(n) != Set::<Seq<char>>::empty()) by {
            assert(!Set::<Seq<char>>::empty().contains(first));
        }
    } else {
        assert(reg.members_of(n) == Set::<Seq<char>>::empty());
    }
}

/// Idempotent cleanup: removing a username that is not present in the
/// room changes nothing and never fails.
pub proof fn law_idempotent_cleanup(pre: Room, post: Room, u: Seq<char>)
    requires
        !pre.members().contains(u),
        leave_post(pre, post, u),
    ensures
        post == pre,
{
}

/// Delivery order matches send order for each individual subscriber: two
/// lines sent one after the other stand in that order among a reader's
/// pending lines, absent overflow.
pub proof fn law_order_preserved(
    r0: Room,
    r1: Room,
    r2: Room,
    first: Seq<char>,
    second: Seq<char>,
    i: int,
)
    requires
        send_post(r0, r1, first),
        send_post(r1, r2, second),
        0 <= i < r0.chan().reader_count(),
        !r0.chan().send_drops_for(i),
        !r1.chan().send_drops_for(i),
    ensures
        r2.chan().pending(i).len() >= 2,
        r2.chan().pending(i)[r2.chan().pending(i).len() - 2] == first,
        r2.chan().pending(i).last() == second,
{
    assert(r2.chan().pending(i) == r0.chan().pending(i).push(first).push(second));
}

/// Senders never block and never fail: every send leaves exactly one more
/// line at the end of each reader's pending lines, dropping at most the
/// oldest pending line of a full buffer (drop-oldest overflow, at-most-
/// once delivery per reader).
pub proof fn law_lossy_under_pressure(pre: Room, post: Room, line: Seq<char>, i: int)
    requires
        send_post(pre, post, line),
        0 <= i < pre.chan().reader_count(),
        pre.chan().send_drops_for(i),
        pre.chan().pending(i).len() > 0,
    ensures
        post.chan().pending(i) == pre.chan().pending(i).drop_first().push(line),
        post.chan().lagged(i),
{
}

} // verus!
