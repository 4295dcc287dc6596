use vstd::prelude::*;

use crate::models::Attachment;
use crate::text::{json_quote, json_string_literal, owned};

verus! {

/// A message that a client sends over its socket.
#[derive(Debug)]
pub struct ChatMessage {
    pub to: String,
    pub message_type: String,
    pub from: Option<String>,
    pub content: String,
    pub attachments: Vec<Attachment>,
}

/// A frame that the server sends to a client.
#[derive(Debug)]
pub struct ServerMessage {
    pub message_type: String,
    pub content: String,
}

/// The first frame of a client that did not pass its token in the URL.
#[derive(Debug)]
pub struct AuthMessage {
    pub token: String,
}

/// A client's answer to a token-refresh request.
#[derive(Debug)]
pub struct RefreshMessage {
    pub refresh_token: String,
}

/// The JSON text of a server frame, fields in declaration order.
pub open spec fn server_frame(message_type: Seq<char>, content: Seq<char>) -> Seq<char> {
    "{\"message_type\":"@ + json_string_literal(message_type) + ",\"content\":"@
        + json_string_literal(content) + "}"@
}

impl ServerMessage {
    /// A frame of kind `message_type` carrying `content`.
    pub fn new(message_type: &str, content: &str) -> (r: ServerMessage)
        ensures
            r.message_type@ == message_type@,
            r.content@ == content@,
    {
        ServerMessage { message_type: owned(message_type), content: owned(content) }
    }

    /// The JSON text of this frame.
    pub fn to_json(&self) -> (r: String)
        ensures
            r@ == server_frame(self.message_type@, self.content@),
    {
        let mut r = owned("{\"message_type\":");
        r.append(json_quote(self.message_type.as_str()).as_str());
        r.append(",\"content\":");
        r.append(json_quote(self.content.as_str()).as_str());
        r.append("}");
        r
    }
}

/// The kind of a presence event.
pub open spec fn presence_type(online: bool) -> Seq<char> {
    if online {
        "user_online"@
    } else {
        "user_offline"@
    }
}

/// The JSON text of the presence event of `user_id`.
pub open spec fn presence_frame(online: bool, user_id: Seq<char>) -> Seq<char> {
    "{\"message_type\":"@ + json_string_literal(presence_type(online)) + ",\"user_id\":"@
        + json_string_literal(user_id) + "}"@
}

/// A user coming online or going offline.
#[derive(Debug)]
pub struct PresenceEvent {
    pub message_type: String,
    pub user_id: String,
}

impl PresenceEvent {
    /// The event of `user_id` coming online (`online`) or going offline.
    pub fn for_user(online: bool, user_id: &String) -> (r: PresenceEvent)
        ensures
            r.message_type@ == presence_type(online),
            r.user_id@ == user_id@,
    {
        let message_type = if online {
            owned("user_online")
        } else {
            owned("user_offline")
        };
        PresenceEvent { message_type, user_id: user_id.clone() }
    }

    /// The JSON text of this event.
    pub fn to_json(&self) -> (r: String)
        ensures
            r@ == "{\"message_type\":"@ + json_string_literal(self.message_type@)
                + ",\"user_id\":"@ + json_string_literal(self.user_id@) + "}"@,
    {
        let mut r = owned("{\"message_type\":");
        r.append(json_quote(self.message_type.as_str()).as_str());
        r.append(",\"user_id\":");
        r.append(json_quote(self.user_id.as_str()).as_str());
        r.append("}");
        r
    }
}

/// A request to join a voice channel.
#[derive(Debug)]
pub struct VoiceJoinMessage {
    pub channel_id: String,
}

} // verus!
