use litecord_backend::channels::{check_dm_participants, dm_participants, dm_send_allowed, recipients_key};
use litecord_backend::friends::{add_friend, are_accepted_friends, friend_of, remove_friend, update_friend_request};
use litecord_backend::guild_channels::{
    requested_channel_type, channel_type_name, get_guild_member_ids, parse_channel_type, update_channel_permissions, visible_channels,
};
use litecord_backend::guilds::{delete_guild, join_guild, leave_guild, share_guild};
use litecord_backend::messages::{assert_channel_access, chronological, message_limit, MessagesQuery};
use litecord_backend::models::{
    ActivityStatus, Channel, ChannelType, DMChannel, Friendship, GuildInvite, MemberOf, Message,
    PermissionOverwrite, User,
};
use litecord_backend::permissions::{get_member_permissions, MemberPermissions};
use litecord_backend::friends::enrich_friendships;
use litecord_backend::guilds::member_profiles;
use litecord_backend::messages::attach_authors;

fn s(x: &str) -> String {
    x.to_string()
}

fn strings(xs: &[&str]) -> Vec<String> {
    xs.iter().map(|x| x.to_string()).collect()
}

fn friendship(a: &str, b: &str, status: &str) -> Friendship {
    Friendship {
        id: Some(format!("friendship:{a}{b}")),
        user_a: s(a),
        user_b: s(b),
        created_at: s("2024-01-01T00:00:00Z"),
        status: s(status),
    }
}

fn user(id: &str, name: &str) -> User {
    User {
        id: Some(s(id)),
        name: s(name),
        display_name: s(name),
        profile_picture: s(""),
        email: format!("{name}@test.com"),
        password: s("hash"),
        status: ActivityStatus::Online,
        created_at: s("2024-01-01T00:00:00Z"),
    }
}

fn member(u: &str) -> MemberOf {
    MemberOf {
        id: None,
        user: s(u),
        guild: s("guild:g"),
        roles: vec![],
        nickname: None,
        joined_at: s("2024-01-01T00:00:00Z"),
    }
}

fn plain_perms(u: &str) -> MemberPermissions {
    let owner = s("user:owner");
    let m = member(u);
    get_member_permissions(Some(&owner), &s(u), Some(&m), &[]).unwrap()
}

#[test]
fn add_friend_decisions() {
    let me = s("user:a");
    let target = user("user:b", "bob");
    assert_eq!(add_friend(&me, None, None).unwrap_err(), (404, s("Utilisateur cible non trouvé.")));
    let mut without_id = user("user:b", "bob");
    without_id.id = None;
    assert_eq!(add_friend(&me, Some(&without_id), None).unwrap_err(), (500, s("L'utilisateur cible n'a pas d'ID.")));
    let accepted = friendship("user:a", "user:b", "accepted");
    assert_eq!(
        add_friend(&me, Some(&target), Some(&accepted)).unwrap_err(),
        (400, s("Vous êtes déjà amis avec cet utilisateur."))
    );
    let pending = friendship("user:a", "user:b", "pending");
    assert_eq!(
        add_friend(&me, Some(&target), Some(&pending)).unwrap_err(),
        (400, s("Une demande d'amitié est déjà en attente."))
    );
    let other = friendship("user:b", "user:a", "rejected");
    assert_eq!(add_friend(&me, Some(&target), Some(&other)).unwrap_err(), (400, s("Statut d'amitié inconnu.")));
}

#[test]
fn add_friend_returns_friendship_with_correct_users() {
    let request = add_friend(&s("user:p"), Some(&user("user:q", "user_q")), None).unwrap();
    assert_eq!(request.status, "pending");
    assert_eq!(request.user_a, "user:p", "sender must be user_a");
    assert_eq!(request.user_b, "user:q");
}

#[test]
fn answering_a_friend_request() {
    let pending = friendship("user:a", "user:b", "pending");
    assert_eq!(update_friend_request(&s("user:b"), Some(&pending), "accept").unwrap(), "accepted");
    assert_eq!(update_friend_request(&s("user:b"), Some(&pending), "reject").unwrap(), "rejected");
    assert_eq!(update_friend_request(&s("user:b"), Some(&pending), "maybe").unwrap_err().0, 400);
    assert_eq!(update_friend_request(&s("user:c"), Some(&pending), "accept").unwrap_err().0, 403);
    assert_eq!(update_friend_request(&s("user:b"), None, "accept").unwrap_err().0, 404);
    let accepted = friendship("user:a", "user:b", "accepted");
    assert_eq!(
        update_friend_request(&s("user:b"), Some(&accepted), "accept").unwrap_err(),
        (400, s("Cette demande d'amitié n'est pas en attente."))
    );
}

#[test]
fn removing_a_friend() {
    let f = friendship("user:a", "user:b", "accepted");
    assert!(remove_friend(&s("user:a"), Some(&f)).is_ok());
    assert_eq!(remove_friend(&s("user:c"), Some(&f)).unwrap_err().0, 403);
    assert_eq!(remove_friend(&s("user:a"), None).unwrap_err(), (404, s("Amitié introuvable.")));
}

#[test]
fn accepted_friendship_works_both_ways() {
    let fs = vec![friendship("user:a", "user:b", "accepted"), friendship("user:a", "user:c", "pending")];
    assert!(are_accepted_friends(&fs, &s("user:a"), &s("user:b")));
    assert!(are_accepted_friends(&fs, &s("user:b"), &s("user:a")));
    assert!(!are_accepted_friends(&fs, &s("user:a"), &s("user:c")));
    assert_eq!(friend_of(&fs[0], &s("user:a")), "user:b");
    assert_eq!(friend_of(&fs[0], &s("user:b")), "user:a");
}

#[test]
fn dm_channel_key_is_order_independent() {
    assert_eq!(recipients_key(&strings(&["user:b", "user:a", "user:c"])), "user:a,user:b,user:c");
    assert_eq!(recipients_key(&strings(&["user:c", "user:b", "user:a"])), "user:a,user:b,user:c");
}

#[test]
fn same_recipients_give_the_same_dm_key() {
    let first = recipients_key(&dm_participants(&s("user:a"), &strings(&["user:c", "user:b"])));
    let second = recipients_key(&dm_participants(&s("user:a"), &strings(&["user:b", "user:c", "user:b", "user:a"])));
    assert_eq!(first, "user:a,user:b,user:c");
    assert_eq!(first, second);
}

#[test]
fn dm_participants_put_the_owner_first_once() {
    assert_eq!(
        dm_participants(&s("user:a"), &strings(&["user:b", "user:a", "user:b", "user:c"])),
        strings(&["user:a", "user:b", "user:c"])
    );
}

#[test]
fn dm_creation_requires_existing_friends() {
    let fs = vec![friendship("user:a", "user:b", "accepted")];
    let parts = strings(&["user:a", "user:b"]);
    assert!(check_dm_participants(&s("user:a"), &parts, 2, &fs).is_ok());
    assert_eq!(
        check_dm_participants(&s("user:a"), &parts, 1, &fs).unwrap_err(),
        (404, s("one or more recipients not found"))
    );
    let parts = strings(&["user:a", "user:b", "user:c"]);
    assert_eq!(
        check_dm_participants(&s("user:a"), &parts, 3, &fs).unwrap_err(),
        (403, s("you must be friends with all recipients"))
    );
    assert!(dm_send_allowed(&s("user:a"), &strings(&["user:a", "user:b"]), &fs));
    assert!(!dm_send_allowed(&s("user:a"), &strings(&["user:a", "user:c"]), &fs));
}

#[test]
fn dm_messages_access_is_restricted_to_recipients() {
    let dm = DMChannel {
        id: Some(s("DMChannel:d")),
        recipients: strings(&["user:a", "user:b"]),
        recipients_key: s("user:a,user:b"),
        name: None,
        owner: s("user:a"),
        last_message_id: None,
        created_at: s("2024-01-01T00:00:00Z"),
    };
    assert!(assert_channel_access("DMChannel", &s("user:a"), Some(&dm), None).is_ok());
    let (status, body) = assert_channel_access("DMChannel", &s("user:x"), Some(&dm), None).unwrap_err();
    assert_eq!(status, 403);
    assert_eq!(body, "{\"error\":\"not_member\"}");
    assert_eq!(assert_channel_access("DMChannel", &s("user:a"), None, None).unwrap_err().0, 404);
    assert_eq!(assert_channel_access("guild", &s("user:a"), None, None).unwrap_err(), (400, s("Invalid channel id")));
}

#[test]
fn channel_messages_access_is_restricted_to_members() {
    assert!(assert_channel_access("channel", &s("user:m"), None, Some(Ok(plain_perms("user:m")))).is_ok());
    let owner = s("user:owner");
    let outsider = get_member_permissions(Some(&owner), &s("user:x"), None, &[]);
    let (status, _) = assert_channel_access("channel", &s("user:x"), None, Some(outsider)).unwrap_err();
    assert_eq!(status, 403);
}

#[test]
fn message_pages_hold_at_most_one_hundred() {
    assert_eq!(message_limit(20), 20);
    assert_eq!(message_limit(100), 100);
    assert_eq!(message_limit(5000), 100);
    assert_eq!(MessagesQuery::new(None, None).limit, 50);
    assert_eq!(MessagesQuery::new(Some(7), Some(s("message:m"))).limit, 7);
}

#[test]
fn history_is_returned_oldest_first() {
    let msg = |id: &str| Message {
        id: Some(s(id)),
        channel: s("channel:c"),
        author: s("user:a"),
        content: s(id),
        reply_to: None,
        attachments: vec![],
        edited_at: None,
        created_at: s("2024-01-01T00:00:00Z"),
    };
    let ordered = chronological(vec![msg("m3"), msg("m2"), msg("m1")]);
    let ids: Vec<String> = ordered.iter().map(|m| m.content.clone()).collect();
    assert_eq!(ids, strings(&["m1", "m2", "m3"]));
}

#[test]
fn channel_types_round_trip() {
    assert_eq!(parse_channel_type("Voice"), Some(ChannelType::Voice));
    assert_eq!(parse_channel_type("Text"), Some(ChannelType::Text));
    assert_eq!(parse_channel_type("voice"), None);
    assert_eq!(channel_type_name(&ChannelType::Voice), "Voice");
}

#[test]
fn denied_view_hides_a_channel() {
    let base = plain_perms("user:m");
    let chan = |id: &str, ows: Vec<PermissionOverwrite>| Channel {
        id: Some(s(id)),
        guild: s("guild:g"),
        name: s(id),
        channel_type: ChannelType::Text,
        category: None,
        created_at: s("2024-01-01T00:00:00Z"),
        permission_overwrites: ows,
    };
    let hidden = PermissionOverwrite { target: s("user:m"), allow: vec![], deny: strings(&["view_channels"]) };
    let visible = visible_channels(&base, &vec![], &s("user:m"), vec![chan("channel:a", vec![]), chan("channel:b", vec![hidden])]);
    assert_eq!(visible.len(), 1);
    assert_eq!(visible[0].id, Some(s("channel:a")));
}

#[test]
fn overwrite_updates_are_validated() {
    let owner = s("user:owner");
    let admin = get_member_permissions(Some(&owner), &owner, None, &[]);
    let ok = vec![PermissionOverwrite { target: s("role:r"), allow: strings(&["send_messages"]), deny: vec![] }];
    assert!(update_channel_permissions(admin, &ok, &vec![Some(s("role"))], true).is_ok());
    let admin = get_member_permissions(Some(&owner), &owner, None, &[]);
    let bad_target = vec![PermissionOverwrite { target: s("guild:g"), allow: vec![], deny: vec![] }];
    assert_eq!(
        update_channel_permissions(admin, &bad_target, &vec![Some(s("guild"))], true).unwrap_err(),
        (400, s("{\"error\":\"invalid_target\",\"target\":\"guild:g\"}"))
    );
    let admin = get_member_permissions(Some(&owner), &owner, None, &[]);
    let unknown = vec![PermissionOverwrite { target: s("user:u"), allow: strings(&["x"]), deny: strings(&["y"]) }];
    assert_eq!(
        update_channel_permissions(admin, &unknown, &vec![Some(s("user"))], true).unwrap_err(),
        (400, s("{\"error\":\"unknown_permissions\",\"permissions\":[\"x\",\"y\"]}"))
    );
    let (status, _) = update_channel_permissions(Ok(plain_perms("user:m")), &ok, &vec![Some(s("role"))], true).unwrap_err();
    assert_eq!(status, 403);
}

#[test]
fn guild_member_ids_of_a_channel() {
    assert_eq!(get_guild_member_ids(true, &vec![member("user:a"), member("user:b")]).unwrap(), strings(&["user:a", "user:b"]));
    assert_eq!(get_guild_member_ids(false, &vec![]).unwrap_err(), "Channel not found");
}

#[test]
fn joining_leaving_and_deleting_guilds() {
    let invite = GuildInvite {
        id: None,
        guild: s("guild:g"),
        inviter: s("user:owner"),
        code: s("abcd1234"),
        expires_at: None,
        created_at: s("2024-01-01T00:00:00Z"),
    };
    let joiner = s("user:j");
    let membership = join_guild(&joiner, Some(&invite), false).unwrap();
    assert_eq!(membership.guild, "guild:g");
    assert_eq!(membership.user, "user:j");
    assert!(membership.roles.is_empty());
    assert_eq!(membership.nickname, None);
    assert_eq!(join_guild(&joiner, Some(&invite), true).unwrap_err(), (409, s("Already a member of this guild")));
    assert_eq!(join_guild(&joiner, None, false).unwrap_err(), (404, s("Invalid or expired invite code")));
    let owner = s("user:owner");
    assert_eq!(leave_guild(Some(&owner), &owner, true).unwrap_err().0, 400);
    assert!(leave_guild(Some(&owner), &s("user:m"), true).is_ok());
    assert_eq!(leave_guild(Some(&owner), &s("user:m"), false).unwrap_err().0, 404);
    assert_eq!(delete_guild(Some(&owner), &s("user:m"), &vec![]).unwrap_err().0, 403);
    assert_eq!(
        delete_guild(Some(&owner), &owner, &vec![member("user:owner"), member("user:m")]).unwrap(),
        strings(&["user:owner", "user:m"])
    );
}

#[test]
fn shared_guilds() {
    assert!(share_guild(&strings(&["guild:a", "guild:b"]), &strings(&["guild:c", "guild:b"])));
    assert!(!share_guild(&strings(&["guild:a"]), &strings(&["guild:c"])));
}

fn simple(id: &str) -> litecord_backend::models::SimpleUser {
    litecord_backend::models::SimpleUser { id: s(id), name: s(id), display_name: s(id), profile_picture: s("") }
}

#[test]
fn messages_get_their_authors() {
    let msg = |id: &str, author: &str| Message {
        id: Some(s(id)),
        channel: s("channel:c"),
        author: s(author),
        content: s(id),
        reply_to: None,
        attachments: vec![],
        edited_at: None,
        created_at: s("2024-01-01T00:00:00Z"),
    };
    let out = attach_authors(vec![msg("m1", "user:a"), msg("m2", "user:b")], vec![Some(simple("user:a")), Some(simple("user:b"))]).unwrap();
    assert_eq!(out.len(), 2);
    assert_eq!(out[1].author.id, "user:b");
    assert_eq!(out[1].content, "m2");
    let err = attach_authors(vec![msg("m1", "user:a"), msg("m2", "user:gone")], vec![Some(simple("user:a")), None]).unwrap_err();
    assert_eq!(err, "Author not found: user:gone");
}

#[test]
fn member_profiles_and_friendships_get_their_users() {
    let profiles = member_profiles(vec![member("user:a")], vec![Some(simple("user:a"))]).unwrap();
    assert_eq!(profiles[0].user.id, "user:a");
    assert_eq!(profiles[0].joined_at, "2024-01-01T00:00:00Z");
    assert_eq!(member_profiles(vec![member("user:z")], vec![None]).unwrap_err(), (500, s("User not found: user:z")));
    let f = friendship("user:a", "user:b", "accepted");
    let enriched = enrich_friendships(vec![f], vec![Some(simple("user:a"))], vec![Some(simple("user:b"))]).unwrap();
    assert_eq!(enriched[0].out_user.id, "user:b");
    assert_eq!(enriched[0].status, "accepted");
    let f = friendship("user:a", "user:b", "accepted");
    assert_eq!(enrich_friendships(vec![f], vec![Some(simple("user:a"))], vec![None]).unwrap_err(), "User not found: user:b");
}

#[test]
fn channel_creation_names_a_known_type() {
    assert_eq!(requested_channel_type("Voice").unwrap(), ChannelType::Voice);
    assert_eq!(requested_channel_type("Stage").unwrap_err(), (400, s("channel_type must be 'Text' or 'Voice'")));
}
