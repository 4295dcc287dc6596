use litecord_backend::chat::hub::{ChatHub, VoiceState};
use litecord_backend::chat::registry::Registry;
use litecord_backend::chat::routing::{
    can_relay, create_dm_channel, fan_out, relay_to_user, send_to, send_to_channel, send_to_dm_channel,
    send_to_user, ChannelMessageAction, ChannelMessageStep, ChatRoute, DirectMessageAction, DirectMessageStep,
    DmChannelAction, DmChannelStep, DmMessageAction, DmMessageStep,
};
use litecord_backend::chat::session::{frame_kind, FrameKind};
use litecord_backend::chat::types::{ChatMessage, PresenceEvent, ServerMessage};
use litecord_backend::models::Friendship;

fn s(x: &str) -> String {
    x.to_string()
}

fn strings(xs: &[&str]) -> Vec<String> {
    xs.iter().map(|x| x.to_string()).collect()
}

fn quoted(x: &str) -> String {
    serde_json::to_string(x).unwrap()
}

fn frame(message_type: &str, content: &str) -> String {
    format!("{{\"message_type\":{},\"content\":{}}}", quoted(message_type), quoted(content))
}

fn accepted(a: &str, b: &str) -> Friendship {
    Friendship {
        id: None,
        user_a: s(a),
        user_b: s(b),
        created_at: s("2024-01-01T00:00:00Z"),
        status: s("accepted"),
    }
}

fn message(to: &str, message_type: &str, from: &str) -> ChatMessage {
    ChatMessage { to: s(to), message_type: s(message_type), from: Some(s(from)), content: s("hi"), attachments: vec![] }
}

#[test]
fn registry_insert_get_remove() {
    let mut r: Registry<u32> = Registry::new();
    assert!(r.is_empty());
    assert_eq!(r.insert(s("a"), 1), None);
    assert_eq!(r.insert(s("b"), 2), None);
    assert_eq!(r.insert(s("a"), 3), Some(1));
    assert_eq!(r.len(), 2);
    assert_eq!(r.get(&s("a")), Some(&3));
    assert!(r.contains_key(&s("b")));
    assert_eq!(r.remove(&s("b")), Some(2));
    assert_eq!(r.remove(&s("b")), None);
    assert_eq!(r.len(), 1);
    assert!(!r.contains_key(&s("b")));
}

#[test]
fn frames_are_the_json_of_their_fields() {
    let f = ServerMessage::new("error", "line \"one\"\nline two").to_json();
    assert_eq!(f, frame("error", "line \"one\"\nline two"));
    assert_eq!(f, "{\"message_type\":\"error\",\"content\":\"line \\\"one\\\"\\nline two\"}");
    let p = PresenceEvent::for_user(true, &s("user:b")).to_json();
    assert_eq!(p, "{\"message_type\":\"user_online\",\"user_id\":\"user:b\"}");
}

#[test]
fn frames_escape_every_control_character() {
    let f = ServerMessage::new("t", "a\\b\u{8}\t\u{c}\r\u{1}\u{1f}é/").to_json();
    assert_eq!(f, "{\"message_type\":\"t\",\"content\":\"a\\\\b\\b\\t\\f\\r\\u0001\\u001fé/\"}");
}

#[test]
fn presence_event_follows_connection() {
    let mut hub: ChatHub<u32> = ChatHub::new();
    assert_eq!(hub.presence_event_for(&s("user:a")), "{\"message_type\":\"user_offline\",\"user_id\":\"user:a\"}");
    hub.register(s("user:a"), 7);
    assert!(hub.is_online(&s("user:a")));
    assert_eq!(hub.connection(&s("user:a")), Some(&7));
    assert_eq!(hub.presence_event_for(&s("user:a")), "{\"message_type\":\"user_online\",\"user_id\":\"user:a\"}");
    assert_eq!(hub.disconnect(&s("user:a")), Some(7));
    assert!(!hub.is_online(&s("user:a")));
}

#[test]
fn broadcast_presence_online_notifies_connected_friend() {
    let mut hub: ChatHub<u32> = ChatHub::new();
    hub.register(s("user:a"), 1);
    let (event, online) = hub.broadcast_presence(&s("user:b"), true, &vec![accepted("user:a", "user:b")]);
    assert_eq!(event, "{\"message_type\":\"user_online\",\"user_id\":\"user:b\"}");
    assert!(online.contains(&s("user:a")));
}

#[test]
fn broadcast_presence_offline_notifies_connected_friend() {
    let mut hub: ChatHub<u32> = ChatHub::new();
    hub.register(s("user:c"), 1);
    let (event, online) = hub.broadcast_presence(&s("user:d"), false, &vec![accepted("user:d", "user:c")]);
    assert_eq!(event, "{\"message_type\":\"user_offline\",\"user_id\":\"user:d\"}");
    assert_eq!(online, strings(&["user:c"]));
}

#[test]
fn broadcast_presence_does_not_notify_non_friends() {
    let mut hub: ChatHub<u32> = ChatHub::new();
    hub.register(s("user:e"), 1);
    let (_, online) = hub.broadcast_presence(&s("user:f"), true, &vec![]);
    assert!(online.is_empty());
}

#[test]
fn broadcast_presence_returns_only_connected_friends() {
    let mut hub: ChatHub<u32> = ChatHub::new();
    hub.register(s("user:h"), 1);
    let (_, online) =
        hub.broadcast_presence(&s("user:g"), true, &vec![accepted("user:g", "user:h"), accepted("user:i", "user:g")]);
    assert!(online.contains(&s("user:h")));
    assert!(!online.contains(&s("user:i")));
}

#[test]
fn connected_among_keeps_order() {
    let mut hub: ChatHub<u32> = ChatHub::new();
    hub.register(s("user:b"), 1);
    hub.register(s("user:d"), 2);
    assert_eq!(
        hub.connected_among(&strings(&["user:a", "user:d", "user:b", "user:c"])),
        strings(&["user:d", "user:b"])
    );
}

fn voice_of(hub: &ChatHub<u32>, user: &str) -> Option<(String, String)> {
    hub.voice_states.get(&s(user)).map(|v: &VoiceState| (v.guild_id.clone(), v.channel_id.clone()))
}

#[test]
fn hub_voice_join_registers_state() {
    let mut hub: ChatHub<u32> = ChatHub::new();
    let out = hub.voice_join(&s("user:o"), &s("channel:v"), Ok(s("guild:g"))).unwrap();
    assert_eq!(out.len(), 1);
    assert_eq!(out[0].guild_id, "guild:g");
    assert_eq!(out[0].channel_id, Some(s("channel:v")));
    assert_eq!(voice_of(&hub, "user:o"), Some((s("guild:g"), s("channel:v"))));
}

#[test]
fn hub_voice_join_switches_channel_in_same_guild() {
    let mut hub: ChatHub<u32> = ChatHub::new();
    hub.voice_join(&s("user:o"), &s("channel:a"), Ok(s("guild:g"))).unwrap();
    let out = hub.voice_join(&s("user:o"), &s("channel:b"), Ok(s("guild:g"))).unwrap();
    assert_eq!(out.len(), 1);
    assert_eq!(hub.voice_states.len(), 1);
    assert_eq!(voice_of(&hub, "user:o").unwrap().1, "channel:b");
    let again = hub.voice_join(&s("user:o"), &s("channel:b"), Ok(s("guild:g"))).unwrap();
    assert!(again.is_empty());
}

#[test]
fn hub_voice_join_across_guilds_announces_the_leave_first() {
    let mut hub: ChatHub<u32> = ChatHub::new();
    hub.voice_join(&s("user:o"), &s("channel:a"), Ok(s("guild:g"))).unwrap();
    let out = hub.voice_join(&s("user:o"), &s("channel:x"), Ok(s("guild:h"))).unwrap();
    assert_eq!(out.len(), 2);
    assert_eq!((out[0].guild_id.clone(), out[0].channel_id.clone()), (s("guild:g"), None));
    assert_eq!((out[1].guild_id.clone(), out[1].channel_id.clone()), (s("guild:h"), Some(s("channel:x"))));
}

#[test]
fn hub_voice_join_rejected_does_not_register_state() {
    let mut hub: ChatHub<u32> = ChatHub::new();
    let err = hub.voice_join(&s("user:x"), &s("channel:v"), Err(s("not_member"))).unwrap_err();
    assert_eq!(err, "not_member");
    assert!(hub.voice_states.is_empty());
}

#[test]
fn hub_voice_leave_removes_state_and_is_noop_when_absent() {
    let mut hub: ChatHub<u32> = ChatHub::new();
    hub.voice_join(&s("user:o"), &s("channel:v"), Ok(s("guild:g"))).unwrap();
    assert_eq!(hub.voice_leave(&s("user:o")), Some(s("guild:g")));
    assert!(hub.voice_states.is_empty());
    assert_eq!(hub.voice_leave(&s("user:o")), None);
    assert!(hub.voice_states.is_empty());
}

#[test]
fn hub_voice_leave_guild_only_affects_matching_guild() {
    let mut hub: ChatHub<u32> = ChatHub::new();
    hub.voice_join(&s("user:o"), &s("channel:v"), Ok(s("guild:g"))).unwrap();
    assert!(!hub.voice_leave_guild(&s("user:o"), &s("guild:other")));
    assert_eq!(hub.voice_states.len(), 1);
    assert!(hub.voice_leave_guild(&s("user:o"), &s("guild:g")));
    assert!(hub.voice_states.is_empty());
}

#[test]
fn hub_clear_channel_voice_states_removes_all_occupants() {
    let mut hub: ChatHub<u32> = ChatHub::new();
    hub.voice_join(&s("user:o"), &s("channel:a"), Ok(s("guild:g"))).unwrap();
    hub.voice_join(&s("user:p"), &s("channel:a"), Ok(s("guild:g"))).unwrap();
    hub.voice_join(&s("user:m"), &s("channel:b"), Ok(s("guild:g"))).unwrap();
    let mut removed = hub.clear_channel_voice_states(&s("channel:a"));
    removed.sort();
    assert_eq!(removed, strings(&["user:o", "user:p"]));
    assert!(!hub.voice_states.contains_key(&s("user:o")));
    assert!(hub.voice_states.contains_key(&s("user:m")));
}

#[test]
fn hub_clear_guild_voice_states_drops_the_guild_only() {
    let mut hub: ChatHub<u32> = ChatHub::new();
    hub.voice_join(&s("user:o"), &s("channel:a"), Ok(s("guild:g"))).unwrap();
    hub.voice_join(&s("user:p"), &s("channel:z"), Ok(s("guild:h"))).unwrap();
    hub.clear_guild_voice_states(&s("guild:g"));
    assert_eq!(hub.voice_states.len(), 1);
    assert!(hub.voice_states.contains_key(&s("user:p")));
}

#[test]
fn hub_voice_states_for_user_is_scoped_to_their_guilds() {
    let mut hub: ChatHub<u32> = ChatHub::new();
    hub.voice_join(&s("user:a"), &s("channel:a"), Ok(s("guild:a"))).unwrap();
    hub.voice_join(&s("user:b"), &s("channel:b"), Ok(s("guild:b"))).unwrap();
    let states = hub.voice_states_in_guilds(&strings(&["guild:a"]));
    assert_eq!(states.len(), 1);
    assert_eq!(states[0].0, "user:a");
    assert_eq!(states[0].1.guild_id, "guild:a");
    assert_eq!(states[0].1.channel_id, "channel:a");
}

#[test]
fn messages_are_routed_by_target_kind() {
    assert_eq!(send_to(&message("user:b", "text", "user:a")), ChatRoute::User);
    assert_eq!(send_to(&message("DMChannel:x", "text", "user:a")), ChatRoute::DmChannel);
    assert_eq!(send_to(&message("channel:c", "text", "user:a")), ChatRoute::Channel);
    assert_eq!(send_to(&message("guild:g", "text", "user:a")), ChatRoute::Unknown);
    assert_eq!(send_to(&message("nocolon", "text", "user:a")), ChatRoute::Malformed);
    assert_eq!(send_to(&message("user:b:extra", "text", "user:a")), ChatRoute::User);
    assert_eq!(send_to(&message("nocolon", "relay", "user:a")), ChatRoute::Relay);
}

#[test]
fn relay_allowed_between_friends() {
    assert!(can_relay(&s("user:a"), &s("user:b"), &vec![accepted("user:b", "user:a")], &vec![], &vec![]));
}

#[test]
fn relay_allowed_between_guild_members_who_are_not_friends() {
    assert!(can_relay(&s("user:a"), &s("user:b"), &vec![], &strings(&["guild:g"]), &strings(&["guild:g"])));
}

#[test]
fn relay_rejected_between_strangers() {
    assert!(!can_relay(&s("user:a"), &s("user:b"), &vec![], &strings(&["guild:g"]), &strings(&["guild:h"])));
}

#[test]
fn relay_delivery_goes_to_target_or_back_with_refusal() {
    let m = message("user:b", "relay", "user:a");
    let ok = relay_to_user(&m, true, &s("{payload}"));
    assert_eq!((ok.recipient, ok.payload), (s("user:b"), s("{payload}")));
    let refused = relay_to_user(&m, false, &s("{payload}"));
    assert_eq!(refused.recipient, "user:a");
    assert_eq!(refused.payload, frame("error", "you must be friends or share a guild to send a relay message"));
}

#[test]
fn direct_message_steps() {
    let (a, b) = (s("user:a"), s("user:b"));
    match send_to_user(&a, &b, DirectMessageStep::Checked { are_friends: false }) {
        DirectMessageAction::Reply(d) => {
            assert_eq!(d.recipient, "user:a");
            assert_eq!(d.payload, frame("error", "you must be friends to send a direct message"));
        }
        other => panic!("unexpected {other:?}"),
    }
    assert!(matches!(send_to_user(&a, &b, DirectMessageStep::Checked { are_friends: true }), DirectMessageAction::FindChannel));
    match send_to_user(&a, &b, DirectMessageStep::Found { channel_id: None }) {
        DirectMessageAction::CreateChannel { participants } => assert_eq!(participants, strings(&["user:a", "user:b"])),
        other => panic!("unexpected {other:?}"),
    }
    match send_to_user(&a, &b, DirectMessageStep::Created { channel_id: Some(s("DMChannel:d")) }) {
        DirectMessageAction::Forward { channel_id, notify } => {
            assert_eq!(channel_id, "DMChannel:d");
            assert_eq!(notify.len(), 1);
            assert_eq!(notify[0].recipient, "user:b");
            assert_eq!(notify[0].payload, frame("dm_channel_created", "DMChannel:d"));
        }
        other => panic!("unexpected {other:?}"),
    }
    assert!(matches!(send_to_user(&a, &b, DirectMessageStep::Created { channel_id: None }), DirectMessageAction::Stop));
}

#[test]
fn dm_channel_opening_steps() {
    let ids = strings(&["user:b", "user:a"]);
    match create_dm_channel(&ids, DmChannelStep::LookedUp { channel_id: None }) {
        DmChannelAction::Create { recipients_key } => assert_eq!(recipients_key, "user:a,user:b"),
        other => panic!("unexpected {other:?}"),
    }
    assert!(matches!(create_dm_channel(&ids, DmChannelStep::Created { result: Err(()) }), DmChannelAction::Retry));
    match create_dm_channel(&ids, DmChannelStep::Retried { channel_id: Some(s("DMChannel:d")) }) {
        DmChannelAction::Done(Some(id)) => assert_eq!(id, "DMChannel:d"),
        other => panic!("unexpected {other:?}"),
    }
}

#[test]
fn dm_channel_message_steps() {
    let a = s("user:a");
    let rs = strings(&["user:a", "user:b"]);
    assert!(matches!(
        send_to_dm_channel(&a, DmMessageStep::Found { participants: Some(rs.clone()), sender_friendships: vec![accepted("user:a", "user:b")] }),
        DmMessageAction::Save
    ));
    match send_to_dm_channel(&a, DmMessageStep::Found { participants: Some(rs.clone()), sender_friendships: vec![] }) {
        DmMessageAction::Reply(d) => assert_eq!(d.payload, frame("error", "you are no longer friends with all participants")),
        other => panic!("unexpected {other:?}"),
    }
    match send_to_dm_channel(&a, DmMessageStep::Saved { recipients: rs, saved_json: s("{\"id\":1}") }) {
        DmMessageAction::Deliver(ds) => {
            assert_eq!(ds.len(), 2);
            assert_eq!(ds[0].recipient, "user:a");
            assert_eq!(ds[1].payload, frame("new_message", "{\"id\":1}"));
        }
        other => panic!("unexpected {other:?}"),
    }
}

#[test]
fn channel_message_steps() {
    let a = s("user:a");
    match send_to_channel(&a, ChannelMessageStep::Checked { verdict: Err(s("missing_permission:send_messages")) }) {
        ChannelMessageAction::Reply(d) => assert_eq!(d.payload, frame("error", "missing_permission:send_messages")),
        other => panic!("unexpected {other:?}"),
    }
    assert!(matches!(send_to_channel(&a, ChannelMessageStep::MembersListed { listed: Ok(vec![]) }), ChannelMessageAction::Stop));
    assert!(matches!(send_to_channel(&a, ChannelMessageStep::MembersListed { listed: Ok(strings(&["user:a"])) }), ChannelMessageAction::Save));
    let ds = fan_out(&strings(&["user:x", "user:y"]), &s("p"));
    assert_eq!(ds.iter().map(|d| d.recipient.clone()).collect::<Vec<_>>(), strings(&["user:x", "user:y"]));
}

#[test]
fn socket_frames_are_classified_by_type() {
    assert_eq!(frame_kind(Some("voice_join")), FrameKind::VoiceJoin);
    assert_eq!(frame_kind(Some("voice_leave")), FrameKind::VoiceLeave);
    assert_eq!(frame_kind(Some("text")), FrameKind::Chat);
    assert_eq!(frame_kind(None), FrameKind::Chat);
}
