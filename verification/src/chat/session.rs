use vstd::prelude::*;

use crate::chat::types::{AuthMessage, ChatMessage, RefreshMessage};
use crate::config::Config;
use crate::jwt::decode_token;
use crate::text::owned;
use crate::users::{accepted_for, refused, LoginSuccess};

verus! {

/// The user of an authenticated socket and the token it presented.
#[derive(Debug)]
pub struct Session {
    pub user_id: String,
    pub token: String,
}

/// The frame refusing a token.
pub open spec fn invalid_token_frame() -> Seq<char> {
    "{\"error\":\"invalid token\"}"@
}

/// The frame asking for an auth message.
pub open spec fn expected_auth_frame() -> Seq<char> {
    "{\"error\":\"expected auth message\"}"@
}

/// What happens on a socket that is not authenticated yet.
#[derive(Debug)]
pub enum AuthEvent {
    /// The token given in the URL.
    QueryToken(String),
    /// A text frame, read as an auth message when it is one.
    Text(Option<AuthMessage>),
    /// The socket closed.
    Closed,
    /// Any other frame.
    Other,
}

/// What to do with a socket that is not authenticated yet.
#[derive(Debug)]
pub enum AuthAction {
    /// The socket belongs to this session.
    Accept(Session),
    /// Send this frame and end.
    Refuse(String),
    /// Send this frame and wait for the next one.
    Answer(String),
    /// Wait for the next frame.
    Wait,
    /// End without a word.
    End,
}

/// The session of `token` when `decode_token` accepts it.
fn session_of(token: String, config: &Config) -> (r: Option<Session>)
    ensures
        match r {
            Some(s) => s.token@ == token@ && accepted_for(
                config.jwt_secret@,
                token@,
                config.token_expiration_seconds as int,
                config.refresh_token_expiration_seconds as int,
                s.user_id@,
            ),
            None => refused(
                config.jwt_secret@,
                token@,
                config.token_expiration_seconds as int,
                config.refresh_token_expiration_seconds as int,
            ),
        },
{
    match decode_token(token.as_str(), config) {
        Ok(c) => Some(Session { user_id: c.user_id, token }),
        Err(_) => None,
    }
}

/// The next step of authenticating a socket after `event`: a token (from
/// the URL or from an auth message) that `decode_token` accepts opens the
/// session of its user, and any other token ends the socket with the
/// invalid-token frame; a text frame that is not an auth message is answered
/// and the socket keeps waiting; a close ends it; other frames are ignored.
pub fn authenticate(event: AuthEvent, config: &Config) -> (r: AuthAction)
    ensures
        match event {
            AuthEvent::QueryToken(t) => match r {
                AuthAction::Accept(s) => s.token@ == t@ && accepted_for(
                    config.jwt_secret@,
                    t@,
                    config.token_expiration_seconds as int,
                    config.refresh_token_expiration_seconds as int,
                    s.user_id@,
                ),
                AuthAction::Refuse(f) => f@ == invalid_token_frame() && refused(
                    config.jwt_secret@,
                    t@,
                    config.token_expiration_seconds as int,
                    config.refresh_token_expiration_seconds as int,
                ),
                _ => false,
            },
            AuthEvent::Text(Some(m)) => match r {
                AuthAction::Accept(s) => s.token@ == m.token@ && accepted_for(
                    config.jwt_secret@,
                    m.token@,
                    config.token_expiration_seconds as int,
                    config.refresh_token_expiration_seconds as int,
                    s.user_id@,
                ),
                AuthAction::Refuse(f) => f@ == invalid_token_frame() && refused(
                    config.jwt_secret@,
                    m.token@,
                    config.token_expiration_seconds as int,
                    config.refresh_token_expiration_seconds as int,
                ),
                _ => false,
            },
            AuthEvent::Text(None) => r matches AuthAction::Answer(f) && f@ == expected_auth_frame(),
            AuthEvent::Closed => r is End,
            AuthEvent::Other => r is Wait,
        },
{
    match event {
        AuthEvent::QueryToken(t) => match session_of(t, config) {
            Some(s) => AuthAction::Accept(s),
            None => AuthAction::Refuse(owned("{\"error\":\"invalid token\"}")),
        },
        AuthEvent::Text(Some(m)) => match session_of(m.token, config) {
            Some(s) => AuthAction::Accept(s),
            None => AuthAction::Refuse(owned("{\"error\":\"invalid token\"}")),
        },
        AuthEvent::Text(None) => AuthAction::Answer(owned("{\"error\":\"expected auth message\"}")),
        AuthEvent::Closed => AuthAction::End,
        AuthEvent::Other => AuthAction::Wait,
    }
}

/// The frame answering a text frame that is not a chat message.
pub open spec fn invalid_message_frame() -> Seq<char> {
    "{\"error\":\"invalid message format, expected: {\\\"to\\\": \\\"string\\\", \\\"message_type\\\": \\\"string\\\", \\\"content\\\": \\\"string\\\"}\"}"@
}

/// A text frame of an authenticated socket, read as a chat message when it
/// is one: the message, sent by `sender_id` whatever its `from` said; the
/// invalid-format frame otherwise.
pub fn handle_incoming_message(sender_id: &String, parsed: Option<ChatMessage>) -> (r: Result<
    ChatMessage,
    String,
>)
    ensures
        match parsed {
            Some(m) => r matches Ok(out) && out.to == m.to && out.message_type == m.message_type
                && out.content == m.content && out.attachments == m.attachments
                && (out.from matches Some(f) && f@ == sender_id@),
            None => r matches Err(f) && f@ == invalid_message_frame(),
        },
{
    match parsed {
        Some(m) => Ok(
            ChatMessage {
                to: m.to,
                message_type: m.message_type,
                from: Some(sender_id.clone()),
                content: m.content,
                attachments: m.attachments,
            },
        ),
        None => Err(
            owned(
                "{\"error\":\"invalid message format, expected: {\\\"to\\\": \\\"string\\\", \\\"message_type\\\": \\\"string\\\", \\\"content\\\": \\\"string\\\"}\"}",
            ),
        ),
    }
}

/// The frame asking a client to refresh its token.
pub open spec fn refresh_required_frame() -> Seq<char> {
    "{\"action\":\"token_refresh_required\"}"@
}

/// The frame closing a socket whose token was not refreshed in time.
pub open spec fn refresh_timeout_frame() -> Seq<char> {
    "{\"error\":\"token_refresh_timeout\"}"@
}

/// What happens while the token of a session is checked or refreshed.
#[derive(Debug)]
pub enum RefreshEvent {
    /// The periodic check is due.
    Check,
    /// A text frame, read as a refresh message when it is one.
    Text(Option<RefreshMessage>),
    /// The answer to the exchange of a refresh token.
    Exchanged(Result<LoginSuccess, (u16, String)>),
    /// The time to refresh ran out.
    TimedOut,
}

/// What to do while the token of a session is checked or refreshed.
#[derive(Debug)]
pub enum RefreshAction {
    /// The token is still good; carry on.
    Keep,
    /// Send this frame and wait for a refresh message.
    RequireRefresh(String),
    /// Exchange this refresh token.
    Exchange(String),
    /// Keep waiting for a refresh message.
    Wait,
    /// The session now holds these tokens; tell the client and carry on.
    Renewed(LoginSuccess),
    /// Send this frame and close the socket.
    Close(String),
}

/// The next step of keeping the token of `session` fresh after `event`: a
/// token that `decode_token` still accepts is kept, any other asks for a
/// refresh; a refresh message's token is exchanged, other frames and a
/// failed exchange keep waiting; a successful exchange renews the session;
/// running out of time closes it.
pub fn handle_token_refresh(session: &Session, event: RefreshEvent, config: &Config) -> (r:
    RefreshAction)
    ensures
        match event {
            RefreshEvent::Check => match r {
                RefreshAction::Keep => exists|u: Seq<char>|
                    accepted_for(
                        config.jwt_secret@,
                        session.token@,
                        config.token_expiration_seconds as int,
                        config.refresh_token_expiration_seconds as int,
                        u,
                    ),
                RefreshAction::RequireRefresh(f) => f@ == refresh_required_frame() && refused(
                    config.jwt_secret@,
                    session.token@,
                    config.token_expiration_seconds as int,
                    config.refresh_token_expiration_seconds as int,
                ),
                _ => false,
            },
            RefreshEvent::Text(Some(m)) => r matches RefreshAction::Exchange(t) && t@
                == m.refresh_token@,
            RefreshEvent::Text(None) => r is Wait,
            RefreshEvent::Exchanged(Ok(l)) => r matches RefreshAction::Renewed(n) && n.token@
                == l.token@ && n.refresh_token@ == l.refresh_token@,
            RefreshEvent::Exchanged(Err(_)) => r is Wait,
            RefreshEvent::TimedOut => r matches RefreshAction::Close(f) && f@
                == refresh_timeout_frame(),
        },
{
    match event {
        RefreshEvent::Check => match session_of(session.token.clone(), config) {
            Some(s) => {
                proof {
                    assert(accepted_for(
                        config.jwt_secret@,
                        session.token@,
                        config.token_expiration_seconds as int,
                        config.refresh_token_expiration_seconds as int,
                        s.user_id@,
                    ));
                }
                RefreshAction::Keep
            },
            None => RefreshAction::RequireRefresh(owned("{\"action\":\"token_refresh_required\"}")),
        },
        RefreshEvent::Text(Some(m)) => RefreshAction::Exchange(m.refresh_token),
        RefreshEvent::Text(None) => RefreshAction::Wait,
        RefreshEvent::Exchanged(Ok(l)) => RefreshAction::Renewed(l),
        RefreshEvent::Exchanged(Err(_)) => RefreshAction::Wait,
        RefreshEvent::TimedOut => RefreshAction::Close(owned("{\"error\":\"token_refresh_timeout\"}")),
    }
}

/// The kind of a text frame of an authenticated socket.
#[derive(Debug, PartialEq, Eq, Structural)]
pub enum FrameKind {
    VoiceJoin,
    VoiceLeave,
    Chat,
}

/// The kind of a text frame by its `message_type` (`None` when it has
/// none): `voice_join` and `voice_leave` drive voice presence; anything
/// else is a chat message.
pub fn frame_kind(message_type: Option<&str>) -> (r: FrameKind)
    ensures
        r == match message_type {
            Some(t) => if t@ == "voice_join"@ {
                FrameKind::VoiceJoin
            } else if t@ == "voice_leave"@ {
                FrameKind::VoiceLeave
            } else {
                FrameKind::Chat
            },
            None => FrameKind::Chat,
        },
{
    match message_type {
        Some(t) => {
            let t = owned(t);
            if t == owned("voice_join") {
                FrameKind::VoiceJoin
            } else if t == owned("voice_leave") {
                FrameKind::VoiceLeave
            } else {
                FrameKind::Chat
            }
        },
        None => FrameKind::Chat,
    }
}

} // verus!
