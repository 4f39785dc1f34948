//! The room and channel primitives on their own: idempotent leave,
//! drop-oldest overflow, no replay, and the fixed line formats.

use chat_relay::channel::{Channel, Recv};
use chat_relay::lines::{chat_line, joined_line, left_line, malformed_notice, name_taken_notice};
use chat_relay::room::Room;

#[test]
fn leave_of_absent_name_is_a_no_op() {
    let mut room = Room::new();
    assert!(room.try_join(&String::from("alice")).is_some());
    assert_eq!(room.member_count(), 1);
    room.leave(&String::from("bob"));
    assert_eq!(room.member_count(), 1);
    room.leave(&String::from("alice"));
    assert_eq!(room.member_count(), 0);
    room.leave(&String::from("alice"));
    assert_eq!(room.member_count(), 0);
}

#[test]
fn join_is_rejected_only_for_present_names() {
    let mut room = Room::new();
    assert!(room.try_join(&String::from("alice")).is_some());
    assert!(room.try_join(&String::from("alice")).is_none());
    assert!(room.try_join(&String::from("bob")).is_some());
    assert_eq!(room.member_count(), 2);
}

#[test]
fn channel_delivers_in_send_order() {
    let mut ch = Channel::new(4);
    let id = ch.subscribe();
    ch.send(String::from("one"));
    ch.send(String::from("two"));
    assert!(matches!(ch.recv(id), Recv::Line(l) if l == "one"));
    assert!(matches!(ch.recv(id), Recv::Line(l) if l == "two"));
    assert!(matches!(ch.recv(id), Recv::Empty));
}

#[test]
fn channel_does_not_replay_earlier_lines() {
    let mut ch = Channel::new(4);
    ch.send(String::from("before"));
    let id = ch.subscribe();
    assert!(matches!(ch.recv(id), Recv::Empty));
    ch.send(String::from("after"));
    assert!(matches!(ch.recv(id), Recv::Line(l) if l == "after"));
}

#[test]
fn channel_overflow_drops_oldest_and_reports_lag_once() {
    let mut ch = Channel::new(2);
    let id = ch.subscribe();
    ch.send(String::from("one"));
    ch.send(String::from("two"));
    ch.send(String::from("three"));
    assert!(matches!(ch.recv(id), Recv::Lagged));
    assert!(matches!(ch.recv(id), Recv::Line(l) if l == "two"));
    assert!(matches!(ch.recv(id), Recv::Line(l) if l == "three"));
    assert!(matches!(ch.recv(id), Recv::Empty));
}

#[test]
fn overflow_does_not_disturb_a_caught_up_reader() {
    let mut ch = Channel::new(2);
    let slow = ch.subscribe();
    let fast = ch.subscribe();
    ch.send(String::from("one"));
    ch.send(String::from("two"));
    assert!(matches!(ch.recv(fast), Recv::Line(l) if l == "one"));
    assert!(matches!(ch.recv(fast), Recv::Line(l) if l == "two"));
    ch.send(String::from("three"));
    assert!(matches!(ch.recv(fast), Recv::Line(l) if l == "three"));
    assert!(matches!(ch.recv(slow), Recv::Lagged));
    assert!(matches!(ch.recv(slow), Recv::Line(l) if l == "two"));
}

#[test]
fn line_formats_are_exact() {
    assert_eq!(
        chat_line(&String::from("alice"), &String::from("hi")),
        String::from("alice: hi")
    );
    assert_eq!(joined_line(&String::from("alice")), String::from("alice joined the chat!"));
    assert_eq!(left_line(&String::from("alice")), String::from("alice left the chat!"));
    assert_eq!(malformed_notice(), String::from("Failed to connect to room!"));
    assert_eq!(name_taken_notice(), String::from("Username already taken."));
}
