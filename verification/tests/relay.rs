//! End-to-end scenarios over the registry and sessions.

use chat_relay::registry::{Delivery, Registry};
use chat_relay::session::{HandshakeOutcome, JoinRequest, Session};

fn req(username: &str, channel: &str) -> JoinRequest {
    JoinRequest { username: String::from(username), channel: String::from(channel) }
}

fn join(reg: &mut Registry, username: &str, channel: &str) -> (Session, HandshakeOutcome) {
    let mut s = Session::new();
    let r = s.handshake(reg, Some(req(username, channel)));
    (s, r)
}

fn next_line(reg: &mut Registry, s: &Session) -> Option<String> {
    match s.poll(reg) {
        Delivery::Line(l) => Some(l),
        _ => None,
    }
}

#[test]
fn first_join_creates_room_and_announces() {
    let mut reg = Registry::new();
    let (alice, r) = join(&mut reg, "alice", "lobby");
    assert!(matches!(r, HandshakeOutcome::Accepted));
    let names: Vec<String> = reg.room_names();
    assert_eq!(names, vec![String::from("lobby")]);
    assert_eq!(reg.member_count_of(&String::from("lobby")), 1);
    assert_eq!(next_line(&mut reg, &alice), Some(String::from("alice joined the chat!")));
}

#[test]
fn second_join_with_taken_name_is_rejected() {
    let mut reg = Registry::new();
    let (_alice, r1) = join(&mut reg, "alice", "lobby");
    assert!(matches!(r1, HandshakeOutcome::Accepted));
    let (_b, r2) = join(&mut reg, "alice", "lobby");
    assert!(matches!(r2, HandshakeOutcome::NameTaken));
    // The first session is unaffected: still the one member of the room.
    assert_eq!(reg.member_count_of(&String::from("lobby")), 1);
}

#[test]
fn malformed_handshake_terminates_without_room() {
    let mut reg = Registry::new();
    let mut s = Session::new();
    let r = s.handshake(&mut reg, None);
    assert!(matches!(r, HandshakeOutcome::Malformed));
    assert!(reg.room_names().is_empty());
}

#[test]
fn chat_line_reaches_every_subscriber_with_prefix() {
    let mut reg = Registry::new();
    let (alice, _) = join(&mut reg, "alice", "lobby");
    // Drain the join announcement.
    assert_eq!(next_line(&mut reg, &alice), Some(String::from("alice joined the chat!")));
    assert!(alice.send_chat(&mut reg, &String::from("hi")));
    assert_eq!(next_line(&mut reg, &alice), Some(String::from("alice: hi")));
    assert!(matches!(alice.poll(&mut reg), Delivery::Empty));
}

#[test]
fn chat_fans_out_to_other_subscribers() {
    let mut reg = Registry::new();
    let (alice, _) = join(&mut reg, "alice", "lobby");
    let (bob, _) = join(&mut reg, "bob", "lobby");
    assert!(alice.send_chat(&mut reg, &String::from("hi")));
    // Bob sees nothing sent before he subscribed, then the chat line.
    assert_eq!(next_line(&mut reg, &bob), Some(String::from("bob joined the chat!")));
    assert_eq!(next_line(&mut reg, &bob), Some(String::from("alice: hi")));
    // Alice sees her own line too: delivery is symmetric.
    assert_eq!(next_line(&mut reg, &alice), Some(String::from("alice joined the chat!")));
    assert_eq!(next_line(&mut reg, &alice), Some(String::from("bob joined the chat!")));
    assert_eq!(next_line(&mut reg, &alice), Some(String::from("alice: hi")));
}

#[test]
fn disconnect_announces_and_empties_room() {
    let mut reg = Registry::new();
    let (mut alice, _) = join(&mut reg, "alice", "lobby");
    let (bob, _) = join(&mut reg, "bob", "lobby");
    alice.close(&mut reg);
    // Bob receives the departure announcement.
    assert_eq!(next_line(&mut reg, &bob), Some(String::from("bob joined the chat!")));
    assert_eq!(next_line(&mut reg, &bob), Some(String::from("alice left the chat!")));
    assert_eq!(reg.member_count_of(&String::from("lobby")), 1);
    // The room disappears once its last member leaves.
    let mut bob = bob;
    bob.close(&mut reg);
    assert!(reg.room_names().is_empty());
    assert_eq!(reg.member_count_of(&String::from("lobby")), 0);
}

#[test]
fn name_is_free_again_after_leave() {
    let mut reg = Registry::new();
    let (mut alice, r1) = join(&mut reg, "alice", "lobby");
    assert!(matches!(r1, HandshakeOutcome::Accepted));
    let (_keep, _) = join(&mut reg, "bob", "lobby");
    alice.close(&mut reg);
    let (_alice2, r2) = join(&mut reg, "alice", "lobby");
    assert!(matches!(r2, HandshakeOutcome::Accepted));
}

#[test]
fn same_name_in_two_rooms_at_once() {
    let mut reg = Registry::new();
    let (_a1, r1) = join(&mut reg, "alice", "lobby");
    let (_a2, r2) = join(&mut reg, "alice", "den");
    assert!(matches!(r1, HandshakeOutcome::Accepted));
    assert!(matches!(r2, HandshakeOutcome::Accepted));
    assert_eq!(reg.member_count_of(&String::from("lobby")), 1);
    assert_eq!(reg.member_count_of(&String::from("den")), 1);
}

#[test]
fn listing_status_reports_rooms() {
    let mut reg = Registry::new();
    assert_eq!(reg.listing_status(), String::from("No rooms found yet!"));
    let (_a, _) = join(&mut reg, "alice", "lobby");
    assert_eq!(reg.listing_status(), String::from("Success!"));
    assert!(reg.contains_room(&String::from("lobby")));
    assert!(!reg.contains_room(&String::from("den")));
}

#[test]
fn closing_a_session_that_never_joined_changes_nothing() {
    let mut reg = Registry::new();
    let (_a, _) = join(&mut reg, "alice", "lobby");
    let mut s = Session::new();
    s.close(&mut reg);
    assert_eq!(reg.member_count_of(&String::from("lobby")), 1);
    assert_eq!(reg.room_names(), vec![String::from("lobby")]);
}

#[test]
fn remove_if_empty_never_tears_down_a_live_room() {
    let mut reg = Registry::new();
    let (_a, _) = join(&mut reg, "alice", "lobby");
    reg.remove_if_empty(&String::from("lobby"));
    assert_eq!(reg.room_names(), vec![String::from("lobby")]);
    reg.remove_if_empty(&String::from("den"));
    assert_eq!(reg.room_names(), vec![String::from("lobby")]);
}

#[test]
fn chat_after_close_is_refused() {
    let mut reg = Registry::new();
    let (mut alice, _) = join(&mut reg, "alice", "lobby");
    alice.close(&mut reg);
    assert!(!alice.send_chat(&mut reg, &String::from("hi")));
    assert!(matches!(alice.poll(&mut reg), Delivery::Closed));
}
