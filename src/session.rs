//! The decisions of one real-time connection.
//!
//! The transport runs the connection; for each lifecycle step or inbound frame
//! it asks the session what to do and performs the returned actions.
use crate::presence::{ChatMessage, JoinChat, LeaveChat};
use vstd::prelude::*;
use vstd::string::StringExecFns;

verus! {

/// One live connection of `user_id`, shown as `name`, subscribed to
/// `(server_id, channel_id)`.
pub struct ChatSession {
    pub name: String,
    pub user_id: i64,
    pub server_id: i64,
    pub channel_id: i64,
}

/// An inbound frame.
pub enum Frame {
    Text(String),
    Binary(Vec<u8>),
    Ping(Vec<u8>),
    Pong(Vec<u8>),
    Close,
    Continuation,
    Nop,
    /// A malformed frame.
    Malformed,
}

/// What the transport does on behalf of the session.
pub enum SessionAction {
    /// Hand the message to the registry for broadcast.
    Broadcast(ChatMessage),
    /// Persist a message through the store (best effort).
    Persist { server_id: i64, channel_id: i64, content: String, user_id: i64 },
    /// Answer a ping.
    Pong(Vec<u8>),
    /// Close the connection.
    Close,
}

/// A chat line as shown to subscribers.
pub open spec fn chat_line(name: Seq<char>, text: Seq<char>) -> Seq<char> {
    name + ": "@ + text
}

/// The notice of a user joining.
pub open spec fn joined_line(name: Seq<char>) -> Seq<char> {
    name + " joined the chat"@
}

/// The notice of a user leaving.
pub open spec fn left_line(name: Seq<char>) -> Seq<char> {
    name + " left the chat"@
}

/// `m` carries `text` to `(server_id, channel_id)`.
pub open spec fn carries(m: ChatMessage, server_id: i64, channel_id: i64, text: Seq<char>) -> bool {
    m.server_id == server_id && m.channel_id == channel_id && m.content@ == text
}

/// `name` followed by `tail`.
fn concat(name: &String, tail: &str) -> (r: String)
    ensures
        r@ == name@ + tail@,
{
    let mut s = name.clone();
    s.append(tail);
    s
}

impl ChatSession {
    /// On open: register with the registry, then announce the user.
    pub fn started(&self, addr: u64) -> (r: (JoinChat, ChatMessage))
        ensures
            r.0 == (JoinChat {
                addr,
                server_id: self.server_id,
                channel_id: self.channel_id,
                user_id: self.user_id,
            }),
            carries(r.1, self.server_id, self.channel_id, joined_line(self.name@)),
    {
        (
            JoinChat {
                addr,
                server_id: self.server_id,
                channel_id: self.channel_id,
                user_id: self.user_id,
            },
            ChatMessage {
                server_id: self.server_id,
                channel_id: self.channel_id,
                content: concat(&self.name, " joined the chat"),
            },
        )
    }

    /// On close: announce the departure, then leave the registry.
    pub fn stopping(&self, addr: u64) -> (r: (ChatMessage, LeaveChat))
        ensures
            carries(r.0, self.server_id, self.channel_id, left_line(self.name@)),
            r.1 == (LeaveChat { user_id: self.user_id, addr: Some(addr) }),
    {
        (
            ChatMessage {
                server_id: self.server_id,
                channel_id: self.channel_id,
                content: concat(&self.name, " left the chat"),
            },
            LeaveChat { user_id: self.user_id, addr: Some(addr) },
        )
    }

    /// Whether a broadcast is for this session's subscription.
    pub fn accepts(&self, msg: &ChatMessage) -> (r: bool)
        ensures
            r == (msg.server_id == self.server_id && msg.channel_id == self.channel_id),
    {
        msg.server_id == self.server_id && msg.channel_id == self.channel_id
    }

    /// The actions for one inbound frame: a text is broadcast at once as
    /// `name: text` and then persisted as sent; a ping is answered; a close
    /// frame or a malformed one closes the connection; anything else is
    /// ignored.
    pub fn handle(&self, frame: Frame) -> (r: Vec<SessionAction>)
        ensures
            match frame {
                Frame::Text(text) => {
                    &&& r@.len() == 2
                    &&& r@[0] matches SessionAction::Broadcast(m) && carries(
                        m,
                        self.server_id,
                        self.channel_id,
                        chat_line(self.name@, text@),
                    )
                    &&& r@[1] matches SessionAction::Persist {
                        server_id,
                        channel_id,
                        content,
                        user_id,
                    } && server_id == self.server_id && channel_id == self.channel_id && content
                        == text && user_id == self.user_id
                },
                Frame::Ping(bytes) => r@ == seq![SessionAction::Pong(bytes)],
                Frame::Close => r@ == seq![SessionAction::Close],
                Frame::Malformed => r@ == seq![SessionAction::Close],
                _ => r@.len() == 0,
            },
    {
        let mut out: Vec<SessionAction> = Vec::new();
        match frame {
            Frame::Text(text) => {
                let mut full = concat(&self.name, ": ");
                full.append(text.as_str());
                out.push(
                    SessionAction::Broadcast(
                        ChatMessage {
                            server_id: self.server_id,
                            channel_id: self.channel_id,
                            content: full,
                        },
                    ),
                );
                out.push(
                    SessionAction::Persist {
                        server_id: self.server_id,
                        channel_id: self.channel_id,
                        content: text,
                        user_id: self.user_id,
                    },
                );
            },
            Frame::Ping(bytes) => {
                out.push(SessionAction::Pong(bytes));
            },
            Frame::Close | Frame::Malformed => {
                out.push(SessionAction::Close);
            },
            _ => {},
        }
        proof {
            assert(": "@.len() == 2) by {
                reveal_strlit(": ");
            }
        }
        out
    }
}

} // verus!
