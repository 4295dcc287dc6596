use vstd::prelude::*;
use vstd::string::*;

use crate::channels::{recipients_key, recipients_key_spec};
use crate::channels::dm_send_allowed;
use crate::chat::types::{server_frame, ChatMessage, ServerMessage};
use crate::friends::{are_accepted_friends, links};
use crate::guilds::share_guild;
use crate::models::Friendship;
use crate::text::{owned, views};

verus! {

// ---------------------------------------------------------------------------
// Deliveries
// ---------------------------------------------------------------------------
/// A frame for the connection of one user.
#[derive(Debug)]
pub struct Delivery {
    pub recipient: String,
    pub payload: String,
}

/// A delivery by the views of its fields.
pub open spec fn delivery_view(d: Delivery) -> (Seq<char>, Seq<char>) {
    (d.recipient@, d.payload@)
}

/// Deliveries by the views of their fields.
pub open spec fn deliveries_view(ds: Seq<Delivery>) -> Seq<(Seq<char>, Seq<char>)> {
    ds.map_values(|d: Delivery| delivery_view(d))
}

/// An `error` frame carrying `content`, for `recipient`.
pub fn error_delivery(recipient: &String, content: &str) -> (r: Delivery)
    ensures
        r.recipient@ == recipient@,
        r.payload@ == server_frame("error"@, content@),
{
    Delivery {
        recipient: recipient.clone(),
        payload: ServerMessage::new("error", content).to_json(),
    }
}

/// `payload` for each of `recipients`, in order.
pub fn fan_out(recipients: &Vec<String>, payload: &String) -> (r: Vec<Delivery>)
    ensures
        deliveries_view(r@) == views(recipients@).map_values(
            |u: Seq<char>| (u, payload@),
        ),
{
    let mut r: Vec<Delivery> = Vec::new();
    let mut i: usize = 0;
    while i < recipients.len()
        invariant
            i <= recipients@.len(),
            r@.len() == i,
            forall|j: int|
                0 <= j < i ==> (#[trigger] r@[j]).recipient@ == recipients@[j]@ && r@[j].payload@
                    == payload@,
        decreases recipients@.len() - i,
    {
        r.push(Delivery { recipient: recipients[i].clone(), payload: payload.clone() });
        i = i + 1;
    }
    assert(deliveries_view(r@) =~= views(recipients@).map_values(|u: Seq<char>| (u, payload@)));
    r
}

/// The `new_message` frame carrying the JSON text of a saved message.
pub open spec fn new_message_frame(saved_json: Seq<char>) -> Seq<char> {
    server_frame("new_message"@, saved_json)
}

/// The `new_message` frame of a saved message for each of `recipients`.
pub fn new_message_deliveries(recipients: &Vec<String>, saved_json: &String) -> (r: Vec<Delivery>)
    ensures
        deliveries_view(r@) == views(recipients@).map_values(
            |u: Seq<char>| (u, new_message_frame(saved_json@)),
        ),
{
    let payload = ServerMessage::new("new_message", saved_json.as_str()).to_json();
    fan_out(recipients, &payload)
}

/// The sender of a client message: its `from`, or the empty string.
pub open spec fn sender_of(message: ChatMessage) -> Seq<char> {
    match message.from {
        Some(f) => f@,
        None => Seq::empty(),
    }
}

/// The sender of `message` (`from`, or empty when unset).
pub fn message_sender(message: &ChatMessage) -> (r: String)
    ensures
        r@ == sender_of(*message),
{
    match &message.from {
        Some(f) => f.clone(),
        None => String::new(),
    }
}

// ---------------------------------------------------------------------------
// Where a message goes
// ---------------------------------------------------------------------------
/// The handler of a client message.
#[derive(PartialEq, Eq, Structural, Debug)]
pub enum ChatRoute {
    Relay,
    User,
    DmChannel,
    Channel,
    Unknown,
    Malformed,
}

/// The text of `to` before its first `:`, or `None` without a `:`.
pub open spec fn kind_before_colon(to: Seq<char>) -> Option<Seq<char>>
    decreases to.len(),
{
    if to.len() == 0 {
        None
    } else if to[0] == ':' {
        Some(Seq::empty())
    } else {
        match kind_before_colon(to.drop_first()) {
            Some(k) => Some(seq![to[0]] + k),
            None => None,
        }
    }
}

/// The handler of a message of type `message_type` for `to`: a `relay`
/// goes to the relay; otherwise `to` must read `kind:id`, and the kind
/// `user`, `DMChannel` or `channel` picks the handler.
pub open spec fn route_of(message_type: Seq<char>, to: Seq<char>) -> ChatRoute {
    if message_type == "relay"@ {
        ChatRoute::Relay
    } else {
        match kind_before_colon(to) {
            None => ChatRoute::Malformed,
            Some(k) => if k == "user"@ {
                ChatRoute::User
            } else if k == "DMChannel"@ {
                ChatRoute::DmChannel
            } else if k == "channel"@ {
                ChatRoute::Channel
            } else {
                ChatRoute::Unknown
            },
        }
    }
}

/// Where `message` goes (see `route_of`).
pub fn send_to(message: &ChatMessage) -> (r: ChatRoute)
    ensures
        r == route_of(message.message_type@, message.to@),
{
    if message.message_type == owned("relay") {
        return ChatRoute::Relay;
    }
    let to = message.to.as_str();
    let n = to.unicode_len();
    let mut i: usize = 0;
    proof {
        assert(to@.skip(0) =~= to@);
        match kind_before_colon(to@) {
            Some(k) => {
                assert(to@.take(0) + k =~= k);
            },
            None => {},
        }
    }
    while i < n
        invariant
            i <= n,
            n == to@.len(),
            forall|j: int| 0 <= j < i ==> to@[j] != ':',
            kind_before_colon(to@) == match kind_before_colon(to@.skip(i as int)) {
                Some(k) => Some(to@.take(i as int) + k),
                None => None::<Seq<char>>,
            },
        ensures
            i <= n,
            i < n ==> to@[i as int] == ':',
            forall|j: int| 0 <= j < i ==> to@[j] != ':',
            kind_before_colon(to@) == match kind_before_colon(to@.skip(i as int)) {
                Some(k) => Some(to@.take(i as int) + k),
                None => None::<Seq<char>>,
            },
        decreases n - i,
    {
        if to.get_char(i) == ':' {
            break;
        }
        proof {
            let rest = to@.skip(i as int);
            assert(rest.drop_first() =~= to@.skip(i + 1));
            assert(rest[0] == to@[i as int]);
            assert(to@.take(i + 1) =~= to@.take(i as int).push(to@[i as int]));
            match kind_before_colon(to@.skip(i + 1)) {
                Some(k) => {
                    assert(to@.take(i as int) + (seq![to@[i as int]] + k) =~= to@.take(i + 1)
                        + k);
                },
                None => {},
            }
        }
        i = i + 1;
    }
    if i == n {
        proof {
            assert(to@.skip(i as int) =~= Seq::<char>::empty());
        }
        return ChatRoute::Malformed;
    }
    proof {
        assert(to@.skip(i as int)[0] == ':');
        assert(to@.take(i as int) + Seq::<char>::empty() =~= to@.take(i as int));
    }
    let kind = owned(to.substring_char(0, i));
    if kind == owned("user") {
        ChatRoute::User
    } else if kind == owned("DMChannel") {
        ChatRoute::DmChannel
    } else if kind == owned("channel") {
        ChatRoute::Channel
    } else {
        ChatRoute::Unknown
    }
}

// ---------------------------------------------------------------------------
// Relay (call signalling)
// ---------------------------------------------------------------------------
/// Whether a relay from `sender_id` to `target_id` is allowed: they are
/// accepted friends (by the sender's friendships), or they share a guild (by
/// the guild ids of their memberships).
pub fn can_relay(
    sender_id: &String,
    target_id: &String,
    sender_friendships: &Vec<Friendship>,
    sender_guilds: &Vec<String>,
    target_guilds: &Vec<String>,
) -> (r: bool)
    ensures
        r == ((exists|i: int|
            0 <= i < sender_friendships@.len() && links(
                #[trigger] sender_friendships@[i],
                sender_id@,
                target_id@,
            ) && sender_friendships@[i].status@ == "accepted"@) || (exists|i: int|
            0 <= i < sender_guilds@.len() && views(target_guilds@).contains(
                #[trigger] sender_guilds@[i]@,
            ))),
{
    are_accepted_friends(sender_friendships, sender_id, target_id) || share_guild(
        sender_guilds,
        target_guilds,
    )
}

/// The relay refusal text.
pub open spec fn relay_refusal() -> Seq<char> {
    "you must be friends or share a guild to send a relay message"@
}

/// The delivery of a relay: the message itself (`payload`, its JSON text)
/// to its target when `allowed`, else the refusal to its sender.
pub fn relay_to_user(message: &ChatMessage, allowed: bool, payload: &String) -> (r: Delivery)
    ensures
        allowed ==> delivery_view(r) == (message.to@, payload@),
        !allowed ==> delivery_view(r) == (sender_of(*message), server_frame(
            "error"@,
            relay_refusal(),
        )),
{
    if !allowed {
        let sender = message_sender(message);
        return error_delivery(
            &sender,
            "you must be friends or share a guild to send a relay message",
        );
    }
    Delivery { recipient: message.to.clone(), payload: payload.clone() }
}

// ---------------------------------------------------------------------------
// Direct messages to a user
// ---------------------------------------------------------------------------
/// What has become known while sending a direct message to a user.
#[derive(Debug)]
pub enum DirectMessageStep {
    /// Whether sender and target are accepted friends.
    Checked { are_friends: bool },
    /// The DM channel of the two, if there is one.
    Found { channel_id: Option<String> },
    /// The DM channel created for them, if creation succeeded.
    Created { channel_id: Option<String> },
}

/// What to do next while sending a direct message to a user.
#[derive(Debug)]
pub enum DirectMessageAction {
    /// Send this frame and stop.
    Reply(Delivery),
    /// Look up the DM channel of the two.
    FindChannel,
    /// Create a DM channel with these participants, owned by the sender.
    CreateChannel { participants: Vec<String> },
    /// Send the message to this DM channel, then these deliveries.
    Forward { channel_id: String, notify: Vec<Delivery> },
    /// Stop.
    Stop,
}

/// The refusal text for a direct message between non-friends.
pub open spec fn not_friends_refusal() -> Seq<char> {
    "you must be friends to send a direct message"@
}

/// The frame announcing a new DM channel.
pub open spec fn dm_created_frame(channel_id: Seq<char>) -> Seq<char> {
    server_frame("dm_channel_created"@, channel_id)
}

/// The next action of a direct message from `sender_id` to `target_id`
/// after `step`: non-friends get the refusal; friends look up their DM
/// channel, create it when missing, and forward the message to it; after a
/// creation the target (unless it is the sender) learns of the new channel.
pub fn send_to_user(sender_id: &String, target_id: &String, step: DirectMessageStep) -> (r:
    DirectMessageAction)
    ensures
        match step {
            DirectMessageStep::Checked { are_friends } => if are_friends {
                r is FindChannel
            } else {
                r matches DirectMessageAction::Reply(d) && delivery_view(d) == (
                    sender_id@,
                    server_frame("error"@, not_friends_refusal()),
                )
            },
            DirectMessageStep::Found { channel_id } => match channel_id {
                Some(id) => r matches DirectMessageAction::Forward { channel_id: c, notify }
                    && c@ == id@ && notify@.len() == 0,
                None => r matches DirectMessageAction::CreateChannel { participants }
                    && views(participants@) == seq![sender_id@, target_id@],
            },
            DirectMessageStep::Created { channel_id } => match channel_id {
                Some(id) => r matches DirectMessageAction::Forward { channel_id: c, notify }
                    && c@ == id@ && deliveries_view(notify@) == (if target_id@ != sender_id@ {
                    seq![(target_id@, dm_created_frame(id@))]
                } else {
                    Seq::empty()
                }),
                None => r is Stop,
            },
        },
{
    match step {
        DirectMessageStep::Checked { are_friends } => {
            if are_friends {
                DirectMessageAction::FindChannel
            } else {
                DirectMessageAction::Reply(
                    error_delivery(sender_id, "you must be friends to send a direct message"),
                )
            }
        },
        DirectMessageStep::Found { channel_id } => match channel_id {
            Some(id) => DirectMessageAction::Forward { channel_id: id, notify: Vec::new() },
            None => {
                let mut participants: Vec<String> = Vec::new();
                participants.push(sender_id.clone());
                participants.push(target_id.clone());
                proof {
                    assert(views(participants@) =~= seq![sender_id@, target_id@]);
                }
                DirectMessageAction::CreateChannel { participants }
            },
        },
        DirectMessageStep::Created { channel_id } => match channel_id {
            Some(id) => {
                let mut notify: Vec<Delivery> = Vec::new();
                if *target_id != *sender_id {
                    let frame = ServerMessage::new("dm_channel_created", id.as_str()).to_json();
                    notify.push(Delivery { recipient: target_id.clone(), payload: frame });
                }
                proof {
                    if target_id@ != sender_id@ {
                        assert(deliveries_view(notify@) =~= seq![
                            (target_id@, dm_created_frame(id@)),
                        ]);
                    } else {
                        assert(deliveries_view(notify@) =~= Seq::<
                            (Seq<char>, Seq<char>),
                        >::empty());
                    }
                }
                DirectMessageAction::Forward { channel_id: id, notify }
            },
            None => DirectMessageAction::Stop,
        },
    }
}

// ---------------------------------------------------------------------------
// Opening a DM channel
// ---------------------------------------------------------------------------
/// What has become known while opening a DM channel.
#[derive(Debug)]
pub enum DmChannelStep {
    /// The DM channel with exactly these participants, if there is one.
    LookedUp { channel_id: Option<String> },
    /// The answer to the creation: the new channel (if the store gave one
    /// back), or `Err` when the store refused it (a channel with the same key
    /// was created meanwhile).
    Created { result: Result<Option<String>, ()> },
    /// The DM channel found by the lookup after a refused creation.
    Retried { channel_id: Option<String> },
}

/// What to do next while opening a DM channel.
#[derive(Debug)]
pub enum DmChannelAction {
    /// Create the channel with this participants key.
    Create { recipients_key: String },
    /// Look the channel up again.
    Retry,
    /// The channel id, or `None` when there is none.
    Done(Option<String>),
}

/// The next action while opening a DM channel for `user_ids` after `step`:
/// an existing channel is reused; otherwise one is created under the key of
/// the participants; a refused creation is followed by one more lookup.
pub fn create_dm_channel(user_ids: &Vec<String>, step: DmChannelStep) -> (r: DmChannelAction)
    ensures
        match step {
            DmChannelStep::LookedUp { channel_id } => match channel_id {
                Some(id) => r matches DmChannelAction::Done(Some(c)) && c@ == id@,
                None => r matches DmChannelAction::Create { recipients_key: k }
                    && k@ == recipients_key_spec(views(user_ids@)),
            },
            DmChannelStep::Created { result } => match result {
                Ok(Some(id)) => r matches DmChannelAction::Done(Some(c)) && c@ == id@,
                Ok(None) => r matches DmChannelAction::Done(None),
                Err(_) => r is Retry,
            },
            DmChannelStep::Retried { channel_id } => match channel_id {
                Some(id) => r matches DmChannelAction::Done(Some(c)) && c@ == id@,
                None => r matches DmChannelAction::Done(None),
            },
        },
{
    match step {
        DmChannelStep::LookedUp { channel_id } => match channel_id {
            Some(id) => DmChannelAction::Done(Some(id)),
            None => DmChannelAction::Create { recipients_key: recipients_key(user_ids) },
        },
        DmChannelStep::Created { result } => match result {
            Ok(found) => DmChannelAction::Done(found),
            Err(_) => DmChannelAction::Retry,
        },
        DmChannelStep::Retried { channel_id } => DmChannelAction::Done(channel_id),
    }
}

// ---------------------------------------------------------------------------
// Messages to a DM channel
// ---------------------------------------------------------------------------
/// What has become known while sending a message to a DM channel.
#[derive(Debug)]
pub enum DmMessageStep {
    /// The participants of the channel (`None` when it does not exist or the
    /// sender is not one of them), with the sender's friendships.
    Found { participants: Option<Vec<String>>, sender_friendships: Vec<Friendship> },
    /// The message was saved; its JSON text, and the channel's participants.
    Saved { recipients: Vec<String>, saved_json: String },
}

/// What to do next while sending a message to a DM channel.
#[derive(Debug)]
pub enum DmMessageAction {
    /// Send this frame and stop.
    Reply(Delivery),
    /// Save the message.
    Save,
    /// Send these deliveries and stop.
    Deliver(Vec<Delivery>),
    /// Stop.
    Stop,
}

/// The refusal text once a participant is no longer a friend of the sender.
pub open spec fn former_friends_refusal() -> Seq<char> {
    "you are no longer friends with all participants"@
}

/// Whether each participant other than the sender is an accepted friend of
/// the sender.
pub open spec fn friends_with_all(
    sender_id: Seq<char>,
    recipients: Seq<String>,
    friendships: Seq<Friendship>,
) -> bool {
    forall|i: int|
        0 <= i < recipients.len() && #[trigger] recipients[i]@ != sender_id ==> exists|k: int|
            0 <= k < friendships.len() && links(#[trigger] friendships[k], sender_id, recipients[i]@)
                && friendships[k].status@ == "accepted"@
}

/// The next action of a message from `sender_id` to a DM channel after
/// `step`: nothing without the channel; the refusal when a participant is no
/// longer a friend; otherwise save it, then send the `new_message` frame to
/// every participant, the sender included.
pub fn send_to_dm_channel(sender_id: &String, step: DmMessageStep) -> (r: DmMessageAction)
    ensures
        match step {
            DmMessageStep::Found { participants, sender_friendships } => match participants {
                None => r is Stop,
                Some(rs) => if friends_with_all(sender_id@, rs@, sender_friendships@) {
                    r is Save
                } else {
                    r matches DmMessageAction::Reply(d) && delivery_view(d) == (
                        sender_id@,
                        server_frame("error"@, former_friends_refusal()),
                    )
                },
            },
            DmMessageStep::Saved { recipients, saved_json } => r matches DmMessageAction::Deliver(
                ds,
            ) && deliveries_view(ds@) == views(recipients@).map_values(
                |u: Seq<char>| (u, new_message_frame(saved_json@)),
            ),
        },
{
    match step {
        DmMessageStep::Found { participants, sender_friendships } => match participants {
            None => DmMessageAction::Stop,
            Some(rs) => {
                if dm_send_allowed(sender_id, &rs, &sender_friendships) {
                    DmMessageAction::Save
                } else {
                    DmMessageAction::Reply(
                        error_delivery(
                            sender_id,
                            "you are no longer friends with all participants",
                        ),
                    )
                }
            },
        },
        DmMessageStep::Saved { recipients, saved_json } => DmMessageAction::Deliver(
            new_message_deliveries(&recipients, &saved_json),
        ),
    }
}

// ---------------------------------------------------------------------------
// Messages to a guild channel
// ---------------------------------------------------------------------------
/// What has become known while sending a message to a guild channel.
#[derive(Debug)]
pub enum ChannelMessageStep {
    /// The verdict of the send check (`Err` holds the refusal code).
    Checked { verdict: Result<(), String> },
    /// The ids of the members of the channel's guild, or the failure.
    MembersListed { listed: Result<Vec<String>, String> },
    /// The message was saved; its JSON text, and the guild's members.
    Saved { members: Vec<String>, saved_json: String },
}

/// What to do next while sending a message to a guild channel.
#[derive(Debug)]
pub enum ChannelMessageAction {
    /// Send this frame and stop.
    Reply(Delivery),
    /// List the members of the channel's guild.
    ListMembers,
    /// Save the message.
    Save,
    /// Send these deliveries and stop.
    Deliver(Vec<Delivery>),
    /// Stop.
    Stop,
}

/// The next action of a message from `sender_id` to a guild channel after
/// `step`: a refused check sends its code back as an `error` frame; without
/// members nothing is saved; otherwise save it, then send the
/// `new_message` frame to every member.
pub fn send_to_channel(sender_id: &String, step: ChannelMessageStep) -> (r: ChannelMessageAction)
    ensures
        match step {
            ChannelMessageStep::Checked { verdict } => match verdict {
                Ok(()) => r is ListMembers,
                Err(code) => r matches ChannelMessageAction::Reply(d) && delivery_view(d) == (
                    sender_id@,
                    server_frame("error"@, code@),
                ),
            },
            ChannelMessageStep::MembersListed { listed } => match listed {
                Ok(ids) => if ids@.len() > 0 {
                    r is Save
                } else {
                    r is Stop
                },
                Err(_) => r is Stop,
            },
            ChannelMessageStep::Saved { members, saved_json } => r matches ChannelMessageAction::Deliver(
                ds,
            ) && deliveries_view(ds@) == views(members@).map_values(
                |u: Seq<char>| (u, new_message_frame(saved_json@)),
            ),
        },
{
    match step {
        ChannelMessageStep::Checked { verdict } => match verdict {
            Ok(()) => ChannelMessageAction::ListMembers,
            Err(code) => ChannelMessageAction::Reply(error_delivery(sender_id, code.as_str())),
        },
        ChannelMessageStep::MembersListed { listed } => match listed {
            Ok(ids) => {
                if ids.len() > 0 {
                    ChannelMessageAction::Save
                } else {
                    ChannelMessageAction::Stop
                }
            },
            Err(_) => ChannelMessageAction::Stop,
        },
        ChannelMessageStep::Saved { members, saved_json } => ChannelMessageAction::Deliver(
            new_message_deliveries(&members, &saved_json),
        ),
    }
}

} // verus!
