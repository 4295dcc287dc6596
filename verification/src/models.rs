use vstd::prelude::*;

verus! {

/// A user's presence status.
#[derive(Debug)]
pub enum ActivityStatus {
    Online,
    Offline,
    Invisible,
    DoNotDisturb,
}

/// The kind of a guild channel.
#[derive(Debug, PartialEq, Eq, Structural)]
pub enum ChannelType {
    Text,
    Voice,
}

/// A channel-level override of permissions for a role (`role:<id>`) or a
/// user (`user:<id>`).
#[derive(Debug)]
pub struct PermissionOverwrite {
    pub target: String,
    pub allow: Vec<String>,
    pub deny: Vec<String>,
}

/// A role of a guild. A smaller `position` is a higher role.
#[derive(Debug)]
pub struct Role {
    pub id: Option<String>,
    pub guild: String,
    pub name: String,
    pub color: String,
    pub position: i32,
    pub permissions: Vec<String>,
}

/// A user account record.
#[derive(Debug)]
pub struct User {
    pub id: Option<String>,
    pub name: String,
    pub display_name: String,
    pub profile_picture: String,
    pub email: String,
    pub password: String,
    pub status: ActivityStatus,
    pub created_at: String,
}

/// The public profile of a user.
#[derive(Debug)]
pub struct SimpleUser {
    pub id: String,
    pub name: String,
    pub display_name: String,
    pub profile_picture: String,
}

/// A stored (encrypted) refresh token.
#[derive(Debug)]
pub struct RefreshToken {
    pub id: Option<String>,
    pub user: String,
    pub token: String,
}

/// A direct-message channel between a set of users.
#[derive(Debug)]
pub struct DMChannel {
    pub id: Option<String>,
    pub recipients: Vec<String>,
    pub recipients_key: String,
    pub name: Option<String>,
    pub owner: String,
    pub last_message_id: Option<String>,
    pub created_at: String,
}

/// A direct-message channel with the profiles of its participants.
#[derive(Debug)]
pub struct DMChannelWithParticipants {
    pub id: Option<String>,
    pub participants: Vec<SimpleUser>,
    pub recipients_key: String,
    pub name: Option<String>,
    pub owner: String,
    pub last_message_id: Option<String>,
    pub created_at: String,
}

/// A friendship edge from `user_a` (who asked) to `user_b`, with its status
/// (`pending`, `accepted` or `rejected`).
#[derive(Debug)]
pub struct Friendship {
    pub id: Option<String>,
    pub user_a: String,
    pub user_b: String,
    pub created_at: String,
    pub status: String,
}

/// A friendship with the profiles of both users.
#[derive(Debug)]
pub struct FriendshipWithUsers {
    pub id: Option<String>,
    pub in_user: SimpleUser,
    pub out_user: SimpleUser,
    pub status: String,
    pub created_at: String,
}

/// Membership of `user` in `guild`, with the ids of the roles assigned.
#[derive(Debug)]
pub struct MemberOf {
    pub id: Option<String>,
    pub user: String,
    pub guild: String,
    pub roles: Vec<String>,
    pub nickname: Option<String>,
    pub joined_at: String,
}

/// A custom emoji of a guild.
#[derive(Debug)]
pub struct Emoji {
    pub id: Option<String>,
    pub owner: String,
    pub guild: String,
    pub name: String,
    pub image: String,
    pub created_at: String,
}

/// A guild (server).
#[derive(Debug)]
pub struct Guild {
    pub id: Option<String>,
    pub name: String,
    pub icon: String,
    pub owner: String,
    pub created_at: String,
}

/// An invitation code to a guild.
#[derive(Debug)]
pub struct GuildInvite {
    pub id: Option<String>,
    pub guild: String,
    pub inviter: String,
    pub code: String,
    pub expires_at: Option<String>,
    pub created_at: String,
}

/// A channel of a guild, with its permission overwrites.
#[derive(Debug)]
pub struct Channel {
    pub id: Option<String>,
    pub guild: String,
    pub name: String,
    pub channel_type: ChannelType,
    pub category: Option<String>,
    pub created_at: String,
    pub permission_overwrites: Vec<PermissionOverwrite>,
}

/// A file attached to a message.
#[derive(Debug)]
pub struct Attachment {
    pub url: String,
    pub filename: String,
    pub size: u64,
}

/// A member of a guild with their public profile.
#[derive(Debug)]
pub struct MemberProfile {
    pub id: Option<String>,
    pub user: SimpleUser,
    pub roles: Vec<String>,
    pub nickname: Option<String>,
    pub joined_at: String,
}

/// A message with the profile of its author.
#[derive(Debug)]
pub struct MessageWithAuthor {
    pub id: Option<String>,
    pub channel: String,
    pub author: SimpleUser,
    pub content: String,
    pub reply_to: Option<String>,
    pub attachments: Vec<Attachment>,
    pub edited_at: Option<String>,
    pub created_at: String,
}

/// A stored message.
#[derive(Debug)]
pub struct Message {
    pub id: Option<String>,
    pub channel: String,
    pub author: String,
    pub content: String,
    pub reply_to: Option<String>,
    pub attachments: Vec<Attachment>,
    pub edited_at: Option<String>,
    pub created_at: String,
}

/// Builds the message-with-author record from a stored message and the
/// profile of its author.
pub fn to_message_with_author(msg: Message, author: SimpleUser) -> (r: MessageWithAuthor)
    ensures
        r.id == msg.id,
        r.channel == msg.channel,
        r.author == author,
        r.content == msg.content,
        r.reply_to == msg.reply_to,
        r.attachments == msg.attachments,
        r.edited_at == msg.edited_at,
        r.created_at == msg.created_at,
{
    MessageWithAuthor {
        id: msg.id,
        channel: msg.channel,
        author,
        content: msg.content,
        reply_to: msg.reply_to,
        attachments: msg.attachments,
        edited_at: msg.edited_at,
        created_at: msg.created_at,
    }
}

} // verus!
