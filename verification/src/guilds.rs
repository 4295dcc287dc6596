use vstd::prelude::*;

use crate::models::{Guild, GuildInvite, MemberOf, MemberProfile, Role, SimpleUser};
use crate::permissions::{
    member_highest_position, not_member_body, not_member_error, require_permission,
    role_hierarchy_body, role_hierarchy_error, MemberPermissions, STATUS_BAD_REQUEST,
    STATUS_CONFLICT, STATUS_FORBIDDEN, STATUS_NOT_FOUND,
};
use crate::roles::{can_kick, error_view, gate, result_view};
use crate::text::{contains_string, labelled, owned, push_char, views};

verus! {

/// Whether `c` is an ASCII letter or digit.
pub open spec fn is_ascii_alphanumeric(c: char) -> bool {
    (48 <= (c as int) <= 57) || (65 <= (c as int) <= 90) || (97 <= (c as int) <= 122)
}

/// `rand::thread_rng().sample(rand::distributions::Alphanumeric)`: a random
/// ASCII letter or digit. Claimed: only that the character is an ASCII
/// letter or digit (the distribution samples from `A-Z`, `a-z`, `0-9`).
#[verifier::external_body]
fn random_alphanumeric() -> (c: char)
    ensures
        is_ascii_alphanumeric(c),
{
    rand::Rng::sample(&mut rand::thread_rng(), rand::distributions::Alphanumeric) as char
}

/// A fresh invitation code: eight random ASCII letters or digits.
pub fn generate_invite_code() -> (r: String)
    ensures
        r@.len() == 8,
        forall|i: int| 0 <= i < 8 ==> is_ascii_alphanumeric(#[trigger] r@[i]),
{
    let mut code = String::new();
    let mut i: usize = 0;
    while i < 8
        invariant
            i <= 8,
            code@.len() == i,
            forall|k: int| 0 <= k < i ==> is_ascii_alphanumeric(#[trigger] code@[k]),
        decreases 8 - i,
    {
        let c = random_alphanumeric();
        push_char(&mut code, c);
        i = i + 1;
    }
    code
}

/// The view of an optional string.
pub open spec fn opt_view(s: Option<&String>) -> Option<Seq<char>> {
    match s {
        Some(x) => Some(x@),
        None => None,
    }
}

/// The ids of the members of a guild that its owner `user_id` deletes
/// (`guild_owner` is `None` when the guild was not found): `404` without the
/// guild, `403` unless the caller is the owner.
pub fn delete_guild(guild_owner: Option<&String>, user_id: &String, members: &Vec<MemberOf>) -> (r:
    Result<Vec<String>, (u16, String)>)
    ensures
        guild_owner is None ==> result_view(r) == Err::<Vec<String>, (u16, Seq<char>)>(
            (STATUS_NOT_FOUND, "Guild not found"@),
        ),
        guild_owner matches Some(o) ==> if o@ != user_id@ {
            result_view(r) == Err::<Vec<String>, (u16, Seq<char>)>(
                (STATUS_FORBIDDEN, "Only the owner can delete the guild"@),
            )
        } else {
            r matches Ok(ids) && ids@.len() == members@.len() && forall|i: int|
                0 <= i < members@.len() ==> #[trigger] ids@[i] == members@[i].user
        },
{
    let owner = match guild_owner {
        None => {
            return Err((STATUS_NOT_FOUND, owned("Guild not found")));
        },
        Some(o) => o,
    };
    if *owner != *user_id {
        return Err((STATUS_FORBIDDEN, owned("Only the owner can delete the guild")));
    }
    let mut ids: Vec<String> = Vec::new();
    let mut i: usize = 0;
    while i < members.len()
        invariant
            i <= members@.len(),
            ids@.len() == i,
            forall|k: int| 0 <= k < i ==> #[trigger] ids@[k] == members@[k].user,
        decreases members@.len() - i,
    {
        ids.push(members[i].user.clone());
        i = i + 1;
    }
    Ok(ids)
}

/// Whether `user_id` may leave a guild owned by `guild_owner` (`None` when
/// not found): `404` without the guild, `400` for the owner, `404` for a
/// non-member.
pub fn leave_guild(guild_owner: Option<&String>, user_id: &String, is_member: bool) -> (r: Result<
    (),
    (u16, String),
>)
    ensures
        guild_owner is None ==> result_view(r) == Err::<(), (u16, Seq<char>)>(
            (STATUS_NOT_FOUND, "Guild not found"@),
        ),
        guild_owner matches Some(o) ==> if o@ == user_id@ {
            result_view(r) == Err::<(), (u16, Seq<char>)>(
                (STATUS_BAD_REQUEST, "The owner cannot leave the guild. Delete it instead."@),
            )
        } else if !is_member {
            result_view(r) == Err::<(), (u16, Seq<char>)>(
                (STATUS_NOT_FOUND, "User is not a member of this guild"@),
            )
        } else {
            r is Ok
        },
{
    let owner = match guild_owner {
        None => {
            return Err((STATUS_NOT_FOUND, owned("Guild not found")));
        },
        Some(o) => o,
    };
    if *owner == *user_id {
        return Err(
            (STATUS_BAD_REQUEST, owned("The owner cannot leave the guild. Delete it instead.")),
        );
    }
    if !is_member {
        return Err((STATUS_NOT_FOUND, owned("User is not a member of this guild")));
    }
    Ok(())
}

/// The verdict on `requester_id` kicking `target_id` from a guild owned by
/// `guild_owner` (`None` when not found), with the requester's permissions
/// `actor`, the target's membership and the target's roles. In order: guild
/// found (`404`), `kick_members`, not the owner (`400`), not oneself (`400`),
/// the target a member (`404`), and the target's highest role strictly below
/// the requester's, unless the requester bypasses (role-hierarchy error); a
/// target without roles ranks at `i64::MAX`.
pub open spec fn kick_verdict(
    guild_owner: Option<Seq<char>>,
    actor: Result<MemberPermissions, (u16, String)>,
    requester_id: Seq<char>,
    target_id: Seq<char>,
    target_is_member: bool,
    target_roles: Seq<Role>,
) -> Result<(), (u16, Seq<char>)> {
    match guild_owner {
        None => Err((STATUS_NOT_FOUND, "Guild not found"@)),
        Some(o) => match gate(actor, "kick_members"@) {
            Err(e) => Err(e),
            Ok(m) => if o == target_id {
                Err((STATUS_BAD_REQUEST, "Cannot kick the guild owner"@))
            } else if requester_id == target_id {
                Err((STATUS_BAD_REQUEST, "Cannot kick yourself"@))
            } else if !target_is_member {
                Err((STATUS_NOT_FOUND, "User is not a member of this guild"@))
            } else if m.bypass || (target_roles.len() == 0 && m.highest_position < i64::MAX) || (
            target_roles.len() > 0 && forall|i: int|
                0 <= i < target_roles.len() ==> m.highest_position < #[trigger] target_roles[i].position)
            {
                Ok(())
            } else {
                Err((STATUS_FORBIDDEN, role_hierarchy_body()))
            },
        },
    }
}

/// Whether the kick may go ahead (see `kick_verdict`). The owner can never
/// be kicked.
pub fn kick_member(
    guild_owner: Option<&String>,
    actor: Result<MemberPermissions, (u16, String)>,
    requester_id: &String,
    target_id: &String,
    target_membership: Option<&MemberOf>,
    target_roles: &[Role],
) -> (r: Result<(), (u16, String)>)
    ensures
        result_view(r) == kick_verdict(
            opt_view(guild_owner),
            actor,
            requester_id@,
            target_id@,
            target_membership is Some,
            target_roles@,
        ),
        guild_owner matches Some(o) && o@ == target_id@ ==> r is Err,
{
    let owner = match guild_owner {
        None => {
            return Err((STATUS_NOT_FOUND, owned("Guild not found")));
        },
        Some(o) => o,
    };
    let ghost a = actor;
    let actor = match require_permission(actor, "kick_members") {
        Err(e) => {
            return Err(e);
        },
        Ok(m) => m,
    };
    if *owner == *target_id {
        return Err((STATUS_BAD_REQUEST, owned("Cannot kick the guild owner")));
    }
    if *requester_id == *target_id {
        return Err((STATUS_BAD_REQUEST, owned("Cannot kick yourself")));
    }
    if target_membership.is_none() {
        return Err((STATUS_NOT_FOUND, owned("User is not a member of this guild")));
    }
    let target_position = member_highest_position(target_membership, target_roles);
    match can_kick(&actor, target_position) {
        Err(e) => {
            return Err(e);
        },
        Ok(false) => {
            proof {
                if !actor.bypass && target_roles@.len() > 0 {
                    let h = target_position->Ok_0;
                    let i = choose|i: int|
                        0 <= i < target_roles@.len() && h == #[trigger] target_roles@[i].position;
                    assert(!(actor.highest_position < target_roles@[i].position));
                }
            }
            return Err(role_hierarchy_error());
        },
        Ok(true) => {},
    }
    Ok(())
}

/// The membership that joining a guild creates: `user` in `guild`, with
/// its roles and nickname.
#[derive(Debug)]
pub struct NewMembership {
    pub user: String,
    pub guild: String,
    pub roles: Vec<String>,
    pub nickname: Option<String>,
}

/// Joining with an invitation (`None` when the code is unknown or expired):
/// `404` without it, `409` for a member already; otherwise the membership
/// of `user_id` in the invitation's guild to create, with no roles and no
/// nickname.
pub fn join_guild(user_id: &String, invite: Option<&GuildInvite>, already_member: bool) -> (r: Result<
    NewMembership,
    (u16, String),
>)
    ensures
        invite is None ==> result_view(r) == Err::<NewMembership, (u16, Seq<char>)>(
            (STATUS_NOT_FOUND, "Invalid or expired invite code"@),
        ),
        invite matches Some(i) ==> if already_member {
            result_view(r) == Err::<NewMembership, (u16, Seq<char>)>(
                (STATUS_CONFLICT, "Already a member of this guild"@),
            )
        } else {
            r matches Ok(m) && m.user@ == user_id@ && m.guild@ == i.guild@ && m.roles@.len() == 0
                && m.nickname is None
        },
{
    let invite = match invite {
        None => {
            return Err((STATUS_NOT_FOUND, owned("Invalid or expired invite code")));
        },
        Some(i) => i,
    };
    if already_member {
        return Err((STATUS_CONFLICT, owned("Already a member of this guild")));
    }
    Ok(
        NewMembership {
            user: user_id.clone(),
            guild: invite.guild.clone(),
            roles: Vec::new(),
            nickname: None,
        },
    )
}

/// A fresh invitation code, when `actor` holds `create_invite`.
pub fn create_invite(actor: Result<MemberPermissions, (u16, String)>) -> (r: Result<
    String,
    (u16, String),
>)
    ensures
        match gate(actor, "create_invite"@) {
            Err(e) => result_view(r) == Err::<String, (u16, Seq<char>)>(e),
            Ok(_) => r matches Ok(code) && code@.len() == 8 && forall|i: int|
                0 <= i < 8 ==> is_ascii_alphanumeric(#[trigger] code@[i]),
        },
{
    let ghost a = actor;
    match require_permission(actor, "create_invite") {
        Err(e) => {
            return Err(e);
        },
        Ok(_) => {},
    }
    Ok(generate_invite_code())
}

/// The guild after an update by `actor`, who must hold `manage_guild`:
/// absent fields keep their value.
pub fn update_guild(
    actor: Result<MemberPermissions, (u16, String)>,
    guild: Guild,
    name: Option<String>,
    icon: Option<String>,
) -> (r: Result<Guild, (u16, String)>)
    ensures
        match gate(actor, "manage_guild"@) {
            Err(e) => result_view(r) == Err::<Guild, (u16, Seq<char>)>(e),
            Ok(_) => r matches Ok(g) && g.id == guild.id && g.owner == guild.owner
                && g.created_at == guild.created_at && g.name == (match name {
                Some(n) => n,
                None => guild.name,
            }) && g.icon == (match icon {
                Some(i) => i,
                None => guild.icon,
            }),
        },
{
    match require_permission(actor, "manage_guild") {
        Err(e) => {
            return Err(e);
        },
        Ok(_) => {},
    }
    let name = match name {
        Some(n) => n,
        None => guild.name,
    };
    let icon = match icon {
        Some(i) => i,
        None => guild.icon,
    };
    Ok(Guild { id: guild.id, name, icon, owner: guild.owner, created_at: guild.created_at })
}

/// Whether `actor` may list the invitations: they must hold `manage_invites`.
pub fn list_guild_invites(actor: Result<MemberPermissions, (u16, String)>) -> (r: Result<
    (),
    (u16, String),
>)
    ensures
        match gate(actor, "manage_invites"@) {
            Err(e) => result_view(r) == Err::<(), (u16, Seq<char>)>(e),
            Ok(_) => r is Ok,
        },
{
    match require_permission(actor, "manage_invites") {
        Err(e) => Err(e),
        Ok(_) => Ok(()),
    }
}

/// Whether `actor` may revoke `invite` (`None` when not found in the guild):
/// `manage_invites`, then `404` without the invitation.
pub fn revoke_invite(actor: Result<MemberPermissions, (u16, String)>, invite: Option<&GuildInvite>) -> (r:
    Result<(), (u16, String)>)
    ensures
        match gate(actor, "manage_invites"@) {
            Err(e) => result_view(r) == Err::<(), (u16, Seq<char>)>(e),
            Ok(_) => if invite is None {
                result_view(r) == Err::<(), (u16, Seq<char>)>(
                    (STATUS_NOT_FOUND, "Invite not found or does not belong to this guild"@),
                )
            } else {
                r is Ok
            },
        },
{
    match require_permission(actor, "manage_invites") {
        Err(e) => {
            return Err(e);
        },
        Ok(_) => {},
    }
    if invite.is_none() {
        return Err((STATUS_NOT_FOUND, owned("Invite not found or does not belong to this guild")));
    }
    Ok(())
}

/// `Ok` for a member of the guild; `403` otherwise.
pub fn assert_member(is_member: bool) -> (r: Result<(), (u16, String)>)
    ensures
        is_member ==> r is Ok,
        !is_member ==> result_view(r) == Err::<(), (u16, Seq<char>)>(
            (STATUS_FORBIDDEN, "You are not a member of this guild"@),
        ),
{
    if !is_member {
        return Err((STATUS_FORBIDDEN, owned("You are not a member of this guild")));
    }
    Ok(())
}

/// The caller's computed permissions as a list, given their permissions
/// (an error passed on) and their membership (`403` when none).
pub fn get_my_membership(
    actor: Result<MemberPermissions, (u16, String)>,
    membership: Option<&MemberOf>,
) -> (r: Result<Vec<String>, (u16, String)>)
    ensures
        actor matches Err(e) ==> result_view(r) == Err::<Vec<String>, (u16, Seq<char>)>(
            error_view(e),
        ),
        actor matches Ok(m) ==> if membership is None {
            result_view(r) == Err::<Vec<String>, (u16, Seq<char>)>(
                (STATUS_FORBIDDEN, not_member_body()),
            )
        } else {
            r matches Ok(list) && (m.bypass ==> views(list@)
                == crate::permissions::all_permissions_spec()) && (!m.bypass ==> views(list@)
                == views(m.permissions@).sort_by(crate::text::string_order()))
        },
{
    let perms = match actor {
        Err(e) => {
            return Err(e);
        },
        Ok(m) => m,
    };
    if membership.is_none() {
        return Err(not_member_error());
    }
    Ok(perms.to_list())
}

/// Whether two users share a guild, given the guild ids of their
/// memberships.
pub fn share_guild(a_guilds: &Vec<String>, b_guilds: &Vec<String>) -> (r: bool)
    ensures
        r == exists|i: int| 0 <= i < a_guilds@.len() && views(b_guilds@).contains(#[trigger] a_guilds@[i]@),
{
    let mut i: usize = 0;
    while i < a_guilds.len()
        invariant
            i <= a_guilds@.len(),
            forall|k: int| 0 <= k < i ==> !views(b_guilds@).contains(#[trigger] a_guilds@[k]@),
        decreases a_guilds@.len() - i,
    {
        if contains_string(b_guilds, &a_guilds[i]) {
            return true;
        }
        i = i + 1;
    }
    false
}

/// The body of a guild creation.
#[derive(Debug)]
pub struct CreateGuildRequest {
    pub name: String,
    pub icon: String,
}

/// The body of a guild update; absent fields stay as they are.
#[derive(Debug)]
pub struct UpdateGuildRequest {
    pub name: Option<String>,
    pub icon: Option<String>,
}

/// The profile of a member, with the public profile of its user.
pub open spec fn profile_of(m: MemberOf, user: SimpleUser) -> MemberProfile {
    MemberProfile { id: m.id, user, roles: m.roles, nickname: m.nickname, joined_at: m.joined_at }
}

/// The profile of each member (`users[i]` is the public profile found for
/// the user of `members[i]`, `None` when there is none); `500` with `User
/// not found: <id>` for the first member without one.
pub fn member_profiles(members: Vec<MemberOf>, users: Vec<Option<SimpleUser>>) -> (r: Result<
    Vec<MemberProfile>,
    (u16, String),
>)
    requires
        members@.len() == users@.len(),
    ensures
        match r {
            Ok(v) => (forall|i: int| 0 <= i < users@.len() ==> (#[trigger] users@[i]) is Some)
                && v@.len() == members@.len() && forall|i: int|
                0 <= i < v@.len() ==> #[trigger] v@[i] == profile_of(members@[i], users@[i]->0),
            Err(e) => e.0 == 500 && exists|i: int|
                0 <= i < users@.len() && (#[trigger] users@[i]) is None && (forall|j: int|
                    0 <= j < i ==> (#[trigger] users@[j]) is Some) && e.1@ == "User not found: "@
                    + members@[i].user@,
        },
{
    let mut k: usize = 0;
    while k < users.len()
        invariant
            k <= users@.len(),
            members@.len() == users@.len(),
            forall|j: int| 0 <= j < k ==> (#[trigger] users@[j]) is Some,
        decreases users@.len() - k,
    {
        if users[k].is_none() {
            return Err((500, labelled("User not found: ", &members[k].user)));
        }
        k = k + 1;
    }
    let ghost om = members@;
    let ghost ou = users@;
    let mut members = members;
    let mut users = users;
    let mut out: Vec<MemberProfile> = Vec::new();
    let n = members.len();
    let mut i: usize = 0;
    while i < n
        invariant
            i <= n,
            n == om.len(),
            om.len() == ou.len(),
            members@ == om.skip(i as int),
            users@ == ou.skip(i as int),
            forall|j: int| 0 <= j < ou.len() ==> (#[trigger] ou[j]) is Some,
            out@.len() == i,
            forall|j: int| 0 <= j < i ==> #[trigger] out@[j] == profile_of(om[j], ou[j]->0),
        decreases n - i,
    {
        let m = members.remove(0);
        let u = users.remove(0);
        proof {
            assert(m == om[i as int]);
            assert(u == ou[i as int]);
            assert(members@ =~= om.skip(i + 1));
            assert(users@ =~= ou.skip(i + 1));
        }
        let user = match u {
            Some(u) => u,
            None => {
                proof {
                    assert(ou[i as int] is Some);
                }
                return Err((500, String::new()));
            },
        };
        out.push(MemberProfile { id: m.id, user, roles: m.roles, nickname: m.nickname, joined_at: m.joined_at });
        i = i + 1;
    }
    Ok(out)
}

} // verus!
