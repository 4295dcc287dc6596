use litecord_backend::guild_channels::{create_channel, delete_channel};
use litecord_backend::guilds::{
    create_invite, get_my_membership, kick_member, list_guild_invites, revoke_invite, update_guild,
};
use litecord_backend::models::{Channel, ChannelType, Guild, GuildInvite, MemberOf, PermissionOverwrite, Role};
use litecord_backend::permissions::{
    all_permissions, check_channel_send, check_voice_join, default_permissions, get_member_permissions,
    is_known_permission, not_member_error, resolve_channel_overwrites, role_hierarchy_error,
    unknown_permissions, MemberPermissions,
};
use litecord_backend::roles::{
    assert_can_grant, assign_role, create_role, delete_role, update_role, validate_vocabulary,
};

fn s(x: &str) -> String {
    x.to_string()
}

fn strings(xs: &[&str]) -> Vec<String> {
    xs.iter().map(|x| x.to_string()).collect()
}

fn role(id: &str, position: i32, permissions: &[&str]) -> Role {
    Role {
        id: Some(s(id)),
        guild: s("guild:g"),
        name: s(id),
        color: s("#ffffff"),
        position,
        permissions: strings(permissions),
    }
}

fn member(user: &str, roles: &[&str]) -> MemberOf {
    MemberOf {
        id: Some(format!("member_of:{user}")),
        user: s(user),
        guild: s("guild:g"),
        roles: strings(roles),
        nickname: None,
        joined_at: s("2024-01-01T00:00:00Z"),
    }
}

fn channel(kind: ChannelType, overwrites: Vec<PermissionOverwrite>) -> Channel {
    Channel {
        id: Some(s("channel:c")),
        guild: s("guild:g"),
        name: s("general"),
        channel_type: kind,
        category: None,
        created_at: s("2024-01-01T00:00:00Z"),
        permission_overwrites: overwrites,
    }
}

fn overwrite(target: &str, allow: &[&str], deny: &[&str]) -> PermissionOverwrite {
    PermissionOverwrite { target: s(target), allow: strings(allow), deny: strings(deny) }
}

const OWNER: &str = "user:owner";

fn owner_perms() -> MemberPermissions {
    let owner = s(OWNER);
    get_member_permissions(Some(&owner), &owner, None, &[]).unwrap()
}

fn perms_of(user: &str, roles: &[Role]) -> MemberPermissions {
    let owner = s(OWNER);
    let ids: Vec<&str> = roles.iter().map(|r| r.id.as_deref().unwrap()).collect();
    let m = member(user, &ids);
    get_member_permissions(Some(&owner), &s(user), Some(&m), roles).unwrap()
}

fn moderator_role() -> Role {
    role("role:mod", 1, &["manage_roles", "kick_members", "manage_messages", "manage_invites", "manage_channels"])
}

#[test]
fn vocabulary_has_eighteen_permissions_and_six_defaults() {
    assert_eq!(all_permissions().len(), 18);
    assert_eq!(
        default_permissions(),
        strings(&["view_channels", "send_messages", "attach_files", "create_invite", "connect", "speak"])
    );
    assert!(is_known_permission("manage_roles"));
    assert!(!is_known_permission("fly_to_the_moon"));
    assert_eq!(
        unknown_permissions(&strings(&["kick_members", "fly_to_the_moon", "x"])),
        strings(&["fly_to_the_moon", "x"])
    );
}

#[test]
fn stable_error_bodies() {
    assert_eq!(role_hierarchy_error(), (403, s("{\"error\":\"role_hierarchy\"}")));
    assert_eq!(not_member_error(), (403, s("{\"error\":\"not_member\"}")));
    let err = validate_vocabulary(&strings(&["fly_to_the_moon", "kick_members"])).unwrap_err();
    assert_eq!(err, (400, s("{\"error\":\"unknown_permissions\",\"permissions\":[\"fly_to_the_moon\"]}")));
    assert!(validate_vocabulary(&strings(&["kick_members"])).is_ok());
}

#[test]
fn owner_has_all_permissions() {
    let perms = owner_perms();
    assert!(perms.bypass);
    for p in all_permissions() {
        assert!(perms.has(&p), "owner should have {p}");
    }
    assert_eq!(perms.to_list().len(), 18);
}

#[test]
fn plain_member_has_default_permissions_only() {
    let perms = perms_of("user:m", &[]);
    assert!(!perms.bypass);
    for p in default_permissions() {
        assert!(perms.has(&p), "member should have default {p}");
    }
    assert!(!perms.has("manage_channels"));
    assert!(!perms.has("kick_members"));
    assert!(!perms.has("manage_roles"));
    assert_eq!(perms.highest_position, i64::MAX);
}

#[test]
fn administrator_role_grants_everything() {
    let perms = perms_of("user:a", &[role("role:admin", 3, &["administrator"])]);
    assert!(perms.bypass);
    for p in all_permissions() {
        assert!(perms.has(&p), "admin should have {p}");
    }
    assert_eq!(perms.highest_position, 3);
}

#[test]
fn role_permissions_are_added_to_the_defaults() {
    let perms = perms_of("user:m", &[role("role:a", 4, &["kick_members"]), role("role:b", 2, &["manage_messages", "bogus"])]);
    assert!(perms.has("kick_members"));
    assert!(perms.has("manage_messages"));
    assert!(perms.has("send_messages"));
    assert!(!perms.has("bogus"));
    assert!(!perms.has("manage_roles"));
    assert_eq!(perms.highest_position, 2);
    assert!(perms.can_act_on_position(3));
    assert!(!perms.can_act_on_position(2));
    assert!(perms.can_grant(&strings(&["kick_members", "speak"])));
    assert!(!perms.can_grant(&strings(&["manage_roles"])));
}

#[test]
fn non_member_has_no_permissions() {
    let owner = s(OWNER);
    let (status, body) = get_member_permissions(Some(&owner), &s("user:x"), None, &[]).unwrap_err();
    assert_eq!(status, 403);
    assert!(body.contains("not_member"));
    let (status, body) = get_member_permissions(None, &s("user:x"), None, &[]).unwrap_err();
    assert_eq!(status, 404);
    assert_eq!(body, "Guild not found");
}

#[test]
fn create_role_rejects_unknown_permissions() {
    let (status, body) = create_role(
        &s("guild:g"),
        Ok(owner_perms()),
        s("R"),
        s("#fff"),
        5,
        strings(&["fly_to_the_moon", "kick_members"]),
    )
    .unwrap_err();
    assert_eq!(status, 400);
    assert!(body.contains("unknown_permissions"));
    assert!(body.contains("fly_to_the_moon"));
    assert!(!body.contains("kick_members"));
}

#[test]
fn member_with_manage_roles_can_create_lower_role() {
    let moderator = perms_of("user:mod", &[moderator_role()]);
    let created = create_role(&s("guild:g"), Ok(moderator), s("Helper"), s("#123"), 2, strings(&["kick_members"]));
    let created = created.unwrap();
    assert_eq!(created.guild, "guild:g");
    assert_eq!(created.position, 2);
    assert_eq!(created.permissions, strings(&["kick_members"]));
}

#[test]
fn member_cannot_create_role_at_or_above_own_position() {
    for position in [0, 1] {
        let moderator = perms_of("user:mod", &[moderator_role()]);
        let (status, body) =
            create_role(&s("guild:g"), Ok(moderator), s("Top"), s("#123"), position, vec![]).unwrap_err();
        assert_eq!(status, 403);
        assert!(body.contains("role_hierarchy"));
    }
}

#[test]
fn member_cannot_grant_permission_they_do_not_have() {
    let moderator = perms_of("user:mod", &[moderator_role()]);
    let (status, body) =
        create_role(&s("guild:g"), Ok(moderator), s("R"), s("#123"), 5, strings(&["administrator"])).unwrap_err();
    assert_eq!(status, 403);
    assert!(body.contains("role_hierarchy"));
}

#[test]
fn member_without_manage_roles_cannot_create_role() {
    let plain = perms_of("user:m", &[]);
    let (status, body) = create_role(&s("guild:g"), Ok(plain), s("R"), s("#123"), 5, vec![]).unwrap_err();
    assert_eq!(status, 403);
    assert!(body.contains("missing_permission"));
    assert!(body.contains("manage_roles"));
}

#[test]
fn update_role_by_owner_updates_fields() {
    let stored = role("role:r", 3, &["kick_members"]);
    let updated = update_role(
        Ok(owner_perms()),
        Some(stored),
        Some(s("New")),
        Some(s("#000000")),
        Some(1),
        Some(strings(&["kick_members", "manage_messages"])),
    )
    .unwrap();
    assert_eq!(updated.name, "New");
    assert_eq!(updated.color, "#000000");
    assert_eq!(updated.position, 1);
    assert_eq!(updated.permissions, strings(&["kick_members", "manage_messages"]));
}

#[test]
fn update_role_rejects_unknown_permissions() {
    let stored = role("role:r", 3, &[]);
    let (status, body) =
        update_role(Ok(owner_perms()), Some(stored), None, None, None, Some(strings(&["bogus"]))).unwrap_err();
    assert_eq!(status, 400);
    assert!(body.contains("unknown_permissions"));
}

#[test]
fn update_role_from_other_guild_returns_404() {
    let (status, _) = update_role(Ok(owner_perms()), None, Some(s("X")), None, None, None).unwrap_err();
    assert_eq!(status, 404);
}

#[test]
fn update_role_hierarchy_blocks_editing_higher_role() {
    let moderator = perms_of("user:mod", &[moderator_role()]);
    let higher = role("role:top", 0, &[]);
    let (status, body) = update_role(Ok(moderator), Some(higher), Some(s("X")), None, None, None).unwrap_err();
    assert_eq!(status, 403);
    assert!(body.contains("role_hierarchy"));
}

#[test]
fn update_role_hierarchy_blocks_moving_role_above_self() {
    let moderator = perms_of("user:mod", &[moderator_role()]);
    let lower = role("role:low", 5, &[]);
    let (status, body) = update_role(Ok(moderator), Some(lower), None, None, Some(0), None).unwrap_err();
    assert_eq!(status, 403);
    assert!(body.contains("role_hierarchy"));
}

#[test]
fn update_role_cannot_grant_unowned_permission() {
    let moderator = perms_of("user:mod", &[moderator_role()]);
    let lower = role("role:low", 5, &[]);
    let (status, body) =
        update_role(Ok(moderator), Some(lower), None, None, None, Some(strings(&["administrator"]))).unwrap_err();
    assert_eq!(status, 403);
    assert!(body.contains("role_hierarchy"));
}

#[test]
fn update_role_purges_unknown_stored_permissions() {
    let stored = role("role:r", 3, &["kick_members", "legacy_permission"]);
    let updated = update_role(Ok(owner_perms()), Some(stored), Some(s("Renamed")), None, None, None).unwrap();
    assert_eq!(updated.permissions, strings(&["kick_members"]));
}

#[test]
fn delete_role_hierarchy_blocks_deleting_higher_role() {
    let moderator = perms_of("user:mod", &[moderator_role()]);
    let higher = role("role:top", 0, &[]);
    let (status, body) = delete_role(Ok(moderator), Some(&higher)).unwrap_err();
    assert_eq!(status, 403);
    assert!(body.contains("role_hierarchy"));
}

#[test]
fn assign_role_from_other_guild_returns_404() {
    let (status, _) = assign_role(Ok(owner_perms()), None, true).unwrap_err();
    assert_eq!(status, 404);
}

#[test]
fn assign_role_hierarchy_blocks_assigning_higher_role() {
    let moderator = perms_of("user:mod", &[moderator_role()]);
    let higher = role("role:top", 0, &[]);
    let (status, body) = assign_role(Ok(moderator), Some(&higher), true).unwrap_err();
    assert_eq!(status, 403);
    assert!(body.contains("role_hierarchy"));
}

#[test]
fn assert_can_grant_allows_only_owned_additions() {
    let moderator = perms_of("user:mod", &[moderator_role()]);
    assert!(assert_can_grant(&moderator, &strings(&["administrator"]), &strings(&["administrator", "kick_members"])).is_ok());
    assert_eq!(
        assert_can_grant(&moderator, &vec![], &strings(&["ban_members"])).unwrap_err(),
        role_hierarchy_error()
    );
}

#[test]
fn kick_requires_kick_members_permission() {
    let owner = s(OWNER);
    let plain = perms_of("user:m", &[]);
    let target = member("user:t", &[]);
    let (status, body) =
        kick_member(Some(&owner), Ok(plain), &s("user:m"), &s("user:t"), Some(&target), &[]).unwrap_err();
    assert_eq!(status, 403);
    assert!(body.contains("missing_permission"));
    assert!(body.contains("kick_members"));
}

#[test]
fn moderator_can_kick_plain_member() {
    let owner = s(OWNER);
    let moderator = perms_of("user:mod", &[moderator_role()]);
    let target = member("user:t", &[]);
    assert!(kick_member(Some(&owner), Ok(moderator), &s("user:mod"), &s("user:t"), Some(&target), &[]).is_ok());
}

#[test]
fn moderator_cannot_kick_equal_or_higher_member() {
    let owner = s(OWNER);
    let moderator = perms_of("user:mod", &[moderator_role()]);
    let target = member("user:t", &["role:mod"]);
    let (status, body) = kick_member(
        Some(&owner),
        Ok(moderator),
        &s("user:mod"),
        &s("user:t"),
        Some(&target),
        &[moderator_role()],
    )
    .unwrap_err();
    assert_eq!(status, 403);
    assert!(body.contains("role_hierarchy"));
}

#[test]
fn moderator_cannot_kick_owner() {
    let owner = s(OWNER);
    let moderator = perms_of("user:mod", &[moderator_role()]);
    let (status, body) = kick_member(Some(&owner), Ok(moderator), &s("user:mod"), &owner, None, &[]).unwrap_err();
    assert_eq!(status, 400);
    assert_eq!(body, "Cannot kick the guild owner");
}

#[test]
fn plain_member_can_create_invite() {
    let code = create_invite(Ok(perms_of("user:m", &[]))).unwrap();
    assert_eq!(code.len(), 8);
    assert!(code.chars().all(|c| c.is_ascii_alphanumeric()));
}

#[test]
fn plain_member_cannot_list_or_revoke_invites() {
    let (status, body) = list_guild_invites(Ok(perms_of("user:m", &[]))).unwrap_err();
    assert_eq!(status, 403);
    assert!(body.contains("manage_invites"));
    let invite = GuildInvite {
        id: Some(s("guild_invite:i")),
        guild: s("guild:g"),
        inviter: s(OWNER),
        code: s("abcd1234"),
        expires_at: None,
        created_at: s("2024-01-01T00:00:00Z"),
    };
    let (status, _) = revoke_invite(Ok(perms_of("user:m", &[])), Some(&invite)).unwrap_err();
    assert_eq!(status, 403);
}

#[test]
fn member_with_manage_invites_can_list_and_revoke() {
    let moderator = perms_of("user:mod", &[moderator_role()]);
    assert!(list_guild_invites(Ok(moderator)).is_ok());
}

#[test]
fn plain_member_cannot_create_channel() {
    let (status, body) = create_channel(Ok(perms_of("user:m", &[]))).unwrap_err();
    assert_eq!(status, 403);
    assert!(body.contains("manage_channels"));
}

#[test]
fn member_with_manage_channels_can_create_and_delete() {
    assert!(create_channel(Ok(perms_of("user:mod", &[moderator_role()]))).is_ok());
    assert!(delete_channel(Ok(perms_of("user:mod", &[moderator_role()])), true).is_ok());
}

#[test]
fn delete_channel_from_other_guild_returns_404() {
    let (status, _) = delete_channel(Ok(owner_perms()), false).unwrap_err();
    assert_eq!(status, 404);
}

#[test]
fn update_guild_requires_manage_guild() {
    let guild = Guild {
        id: Some(s("guild:g")),
        name: s("Old"),
        icon: s("icon.png"),
        owner: s(OWNER),
        created_at: s("2024-01-01T00:00:00Z"),
    };
    let (status, body) = update_guild(Ok(perms_of("user:m", &[])), guild, Some(s("Renamed")), None).unwrap_err();
    assert_eq!(status, 403);
    assert!(body.contains("manage_guild"));
    let guild = Guild {
        id: Some(s("guild:g")),
        name: s("Old"),
        icon: s("icon.png"),
        owner: s(OWNER),
        created_at: s("2024-01-01T00:00:00Z"),
    };
    let updated = update_guild(Ok(owner_perms()), guild, Some(s("Renamed")), None).unwrap();
    assert_eq!(updated.name, "Renamed");
    assert_eq!(updated.icon, "icon.png");
}

#[test]
fn ws_send_rejects_non_members() {
    let owner = s(OWNER);
    let c = channel(ChannelType::Text, vec![]);
    let err = check_channel_send(Some(&c), Some(&owner), &s("user:x"), None, &[], false).unwrap_err();
    assert_eq!(err, "not_member");
    let err = check_channel_send(None, Some(&owner), &s("user:x"), None, &[], false).unwrap_err();
    assert_eq!(err, "channel_not_found");
}

#[test]
fn ws_send_checks_send_and_attach_permissions() {
    let owner = s(OWNER);
    let m = member("user:m", &[]);
    let c = channel(ChannelType::Text, vec![overwrite("user:m", &[], &["attach_files"])]);
    assert!(check_channel_send(Some(&c), Some(&owner), &s("user:m"), Some(&m), &[], false).is_ok());
    assert_eq!(
        check_channel_send(Some(&c), Some(&owner), &s("user:m"), Some(&m), &[], true).unwrap_err(),
        "missing_permission:attach_files"
    );
    let muted = channel(ChannelType::Text, vec![overwrite("user:m", &[], &["send_messages"])]);
    assert_eq!(
        check_channel_send(Some(&muted), Some(&owner), &s("user:m"), Some(&m), &[], false).unwrap_err(),
        "missing_permission:send_messages"
    );
}

#[test]
fn members_me_returns_member_and_computed_permissions() {
    let m = member("user:m", &[]);
    let perms = get_my_membership(Ok(perms_of("user:m", &[])), Some(&m)).unwrap();
    let mut expected = default_permissions();
    expected.sort();
    assert_eq!(perms, expected);
    let owner_list = get_my_membership(Ok(owner_perms()), Some(&m)).unwrap();
    assert_eq!(owner_list.len(), 18);
}

#[test]
fn user_allow_overwrite_beats_role_deny() {
    let r = role("role:r", 2, &[]);
    let base = perms_of("user:m", &[r]);
    let resolved = resolve_channel_overwrites(
        base,
        &strings(&["role:r"]),
        "user:m",
        &vec![overwrite("role:r", &[], &["view_channels"]), overwrite("user:m", &["view_channels"], &[])],
    );
    assert!(resolved.has("view_channels"));
}

#[test]
fn role_deny_overwrite_removes_permission() {
    let r = role("role:r", 2, &[]);
    let base = perms_of("user:m", &[r]);
    let resolved = resolve_channel_overwrites(
        base,
        &strings(&["role:r"]),
        "user:m",
        &vec![overwrite("role:r", &[], &["send_messages"])],
    );
    assert!(!resolved.has("send_messages"));
    assert!(resolved.has("view_channels"));
}

#[test]
fn role_allow_beats_role_deny_and_user_deny_beats_both() {
    let ra = role("role:a", 2, &[]);
    let rb = role("role:b", 3, &[]);
    let base = perms_of("user:m", &[ra, rb]);
    let resolved = resolve_channel_overwrites(
        base,
        &strings(&["role:a", "role:b"]),
        "user:m",
        &vec![overwrite("role:a", &[], &["manage_messages"]), overwrite("role:b", &["manage_messages"], &[])],
    );
    assert!(resolved.has("manage_messages"));
    let ra = role("role:a", 2, &[]);
    let base = perms_of("user:m", &[ra]);
    let resolved = resolve_channel_overwrites(
        base,
        &strings(&["role:a"]),
        "user:m",
        &vec![overwrite("role:a", &["manage_messages"], &[]), overwrite("user:m", &[], &["manage_messages"])],
    );
    assert!(!resolved.has("manage_messages"));
}

#[test]
fn overwrite_order_does_not_change_permissions() {
    let a = || overwrite("role:a", &["manage_messages"], &["send_messages"]);
    let u = || overwrite("user:m", &["mention_everyone"], &["view_channels"]);
    let b = || overwrite("role:b", &[], &["manage_messages", "connect"]);
    let resolve = |list: Vec<PermissionOverwrite>| {
        let base = perms_of("user:m", &[role("role:a", 2, &[]), role("role:b", 3, &[])]);
        resolve_channel_overwrites(base, &strings(&["role:a", "role:b"]), "user:m", &list).to_list()
    };
    let first = resolve(vec![a(), u(), b()]);
    assert_eq!(first, resolve(vec![b(), u(), a()]));
    assert_eq!(first, resolve(vec![u(), b(), a()]));
    assert!(first.contains(&s("manage_messages")));
    assert!(first.contains(&s("mention_everyone")));
    assert!(!first.contains(&s("view_channels")));
    assert!(!first.contains(&s("send_messages")));
    assert!(!first.contains(&s("connect")));
}

#[test]
fn owner_ignores_channel_overwrites() {
    let resolved = resolve_channel_overwrites(
        owner_perms(),
        &vec![],
        OWNER,
        &vec![overwrite(OWNER, &[], &["view_channels", "send_messages"])],
    );
    assert!(resolved.has("view_channels"));
    assert!(resolved.has("send_messages"));
}

#[test]
fn member_can_join_voice_channel() {
    let owner = s(OWNER);
    let m = member("user:m", &[]);
    let c = channel(ChannelType::Voice, vec![]);
    assert_eq!(check_voice_join(Some(&c), Some(&owner), &s("user:m"), Some(&m), &[]).unwrap(), "guild:g");
}

#[test]
fn voice_join_rejects_text_channel() {
    let owner = s(OWNER);
    let m = member("user:m", &[]);
    let c = channel(ChannelType::Text, vec![]);
    assert_eq!(check_voice_join(Some(&c), Some(&owner), &s("user:m"), Some(&m), &[]).unwrap_err(), "not_voice_channel");
}

#[test]
fn voice_join_rejects_unknown_channel() {
    let owner = s(OWNER);
    assert_eq!(check_voice_join(None, Some(&owner), &s("user:m"), None, &[]).unwrap_err(), "channel_not_found");
}

#[test]
fn voice_join_rejects_non_member() {
    let owner = s(OWNER);
    let c = channel(ChannelType::Voice, vec![]);
    assert_eq!(check_voice_join(Some(&c), Some(&owner), &s("user:x"), None, &[]).unwrap_err(), "not_member");
}

#[test]
fn voice_join_rejects_member_with_connect_denied() {
    let owner = s(OWNER);
    let m = member("user:m", &[]);
    let c = channel(ChannelType::Voice, vec![overwrite("user:m", &[], &["connect"])]);
    assert_eq!(
        check_voice_join(Some(&c), Some(&owner), &s("user:m"), Some(&m), &[]).unwrap_err(),
        "missing_permission:connect"
    );
}
