//! The text lines the relay produces: chat lines, join/leave
//! announcements, and the fixed notices sent on a failed handshake.

use vstd::prelude::*;

verus! {

/// The line broadcast to a room when `username` sends `text`.
pub open spec fn spec_chat_line(username: Seq<char>, text: Seq<char>) -> Seq<char> {
    username + ": "@ + text
}

/// The announcement broadcast to a room when `username` joins it.
pub open spec fn spec_joined_line(username: Seq<char>) -> Seq<char> {
    username + " joined the chat!"@
}

/// The announcement broadcast to a room when `username` leaves it.
pub open spec fn spec_left_line(username: Seq<char>) -> Seq<char> {
    username + " left the chat!"@
}

/// Builds the chat line `"{username}: {text}"`.
pub fn chat_line(username: &String, text: &String) -> (r: String)
    ensures
        r@ == spec_chat_line(username@, text@),
{
    let mut s = username.clone();
    s.append(": ");
    s.append(text.as_str());
    s
}

/// Builds the announcement `"{username} joined the chat!"`.
pub fn joined_line(username: &String) -> (r: String)
    ensures
        r@ == spec_joined_line(username@),
{
    let mut s = username.clone();
    s.append(" joined the chat!");
    s
}

/// Builds the announcement `"{username} left the chat!"`.
pub fn left_line(username: &String) -> (r: String)
    ensures
        r@ == spec_left_line(username@),
{
    let mut s = username.clone();
    s.append(" left the chat!");
    s
}

/// The notice sent to a client whose handshake does not decode.
pub fn malformed_notice() -> (r: String)
    ensures
        r@ == "Failed to connect to room!"@,
{
    String::from_str("Failed to connect to room!")
}

/// The notice sent to a client whose username is already present in the room.
pub fn name_taken_notice() -> (r: String)
    ensures
        r@ == "Username already taken."@,
{
    String::from_str("Username already taken.")
}

} // verus!
