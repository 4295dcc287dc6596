use vstd::prelude::*;

use crate::models::Role;
use crate::permissions::{
    is_api_error, is_known, is_known_permission, missing_permission_body, require_permission,
    role_hierarchy_body, role_hierarchy_error, unknown_permissions, unknown_permissions_body,
    unknown_permissions_error, MemberPermissions, STATUS_FORBIDDEN, STATUS_NOT_FOUND,
};
use crate::text::{clone_strings, contains_string, owned, views};

verus! {

/// The view of an error: its status and body.
pub open spec fn error_view(e: (u16, String)) -> (u16, Seq<char>) {
    (e.0, e.1@)
}

/// The view of a result whose error is an API error.
pub open spec fn result_view<T>(r: Result<T, (u16, String)>) -> Result<T, (u16, Seq<char>)> {
    match r {
        Ok(v) => Ok(v),
        Err(e) => Err(error_view(e)),
    }
}

/// Every permission of `permissions` belongs to the vocabulary.
pub open spec fn all_known(permissions: Seq<Seq<char>>) -> bool {
    forall|i: int| 0 <= i < permissions.len() ==> is_known(#[trigger] permissions[i])
}

/// `Ok` when every permission belongs to the vocabulary; otherwise `400`
/// listing the unknown ones.
pub fn validate_vocabulary(permissions: &[String]) -> (r: Result<(), (u16, String)>)
    ensures
        all_known(views(permissions@)) ==> r is Ok,
        !all_known(views(permissions@)) ==> (r matches Err(e) && is_api_error(
            e,
            400,
            unknown_permissions_body(views(permissions@).filter(|p: Seq<char>| !is_known(p))),
        )),
{
    let unknown = unknown_permissions(permissions);
    proof {
        let f = views(permissions@).filter(|p: Seq<char>| !is_known(p));
        if !all_known(views(permissions@)) {
            let i = choose|i: int|
                0 <= i < views(permissions@).len() && !is_known(#[trigger] views(permissions@)[i]);
            views(permissions@).lemma_filter_contains(|p: Seq<char>| !is_known(p), i);
            assert(f.len() > 0);
        } else {
            if f.len() > 0 {
                broadcast use vstd::seq_lib::group_filter_ensures;
                assert(f.contains(f[0]));
                views(permissions@).lemma_filter_contains_rev(|p: Seq<char>| !is_known(p), f[0]);
                assert(views(permissions@).contains(f[0]));
            }
        }
    }
    if unknown.len() > 0 {
        return Err(unknown_permissions_error(unknown.as_slice()));
    }
    Ok(())
}

/// Whether `actor` may move a role from `current` to `requested` permissions:
/// every permission added (requested but not current) must be one the actor
/// holds, unless the actor bypasses.
pub open spec fn grant_allowed(
    actor: MemberPermissions,
    current: Seq<Seq<char>>,
    requested: Seq<Seq<char>>,
) -> bool {
    actor.bypass || forall|i: int|
        0 <= i < requested.len() ==> current.contains(#[trigger] requested[i])
            || actor.perm_set().contains(requested[i])
}

/// `Ok` when `actor` may add to a role the permissions of `requested` that
/// `current` lacks; otherwise the role-hierarchy error.
pub fn assert_can_grant(actor: &MemberPermissions, current: &Vec<String>, requested: &[String]) -> (r:
    Result<(), (u16, String)>)
    ensures
        grant_allowed(*actor, views(current@), views(requested@)) ==> r is Ok,
        !grant_allowed(*actor, views(current@), views(requested@)) ==> (r matches Err(e)
            && is_api_error(e, STATUS_FORBIDDEN, role_hierarchy_body())),
{
    let mut added: Vec<String> = Vec::new();
    let mut i: usize = 0;
    while i < requested.len()
        invariant
            i <= requested@.len(),
            forall|k: int|
                0 <= k < added@.len() ==> !views(current@).contains(#[trigger] added@[k]@),
            forall|k: int|
                #![trigger added@[k]]
                0 <= k < added@.len() ==> exists|m: int|
                    0 <= m < i && #[trigger] requested@[m]@ == added@[k]@,
            forall|k: int|
                0 <= k < i && !views(current@).contains(#[trigger] requested@[k]@) ==> views(
                    added@,
                ).contains(requested@[k]@),
        decreases requested@.len() - i,
    {
        let ghost before = added@;
        if !contains_string(current, &requested[i]) {
            added.push(requested[i].clone());
            proof {
                assert(views(added@)[added@.len() - 1] == requested@[i as int]@);
                assert forall|k: int|
                    0 <= k < i && !views(current@).contains(#[trigger] requested@[k]@) implies views(
                    added@,
                ).contains(requested@[k]@) by {
                    let m = choose|m: int|
                        0 <= m < views(before).len() && views(before)[m] == requested@[k]@;
                    assert(views(added@)[m] == requested@[k]@);
                }
                assert forall|k: int|
                    #![trigger added@[k]]
                    0 <= k < added@.len() implies exists|m: int|
                    0 <= m < i + 1 && #[trigger] requested@[m]@ == added@[k]@ by {
                    if k == added@.len() - 1 {
                        assert(requested@[i as int]@ == added@[k]@);
                    } else {
                        assert(added@[k] == before[k]);
                    }
                }
            }
        }
        i = i + 1;
    }
    if !actor.can_grant(added.as_slice()) {
        proof {
            if grant_allowed(*actor, views(current@), views(requested@)) {
                assert forall|k: int| 0 <= k < added@.len() implies actor.perm_set().contains(
                    #[trigger] added@[k]@,
                ) by {
                    assert(!views(current@).contains(added@[k]@));
                    let m = choose|m: int|
                        0 <= m < requested@.len() && #[trigger] requested@[m]@ == added@[k]@;
                    assert(views(requested@)[m] == requested@[m]@);
                }
            }
        }
        return Err(role_hierarchy_error());
    }
    proof {
        if !actor.bypass {
        assert forall|k: int| 0 <= k < views(requested@).len() implies views(current@).contains(
            #[trigger] views(requested@)[k],
        ) || actor.perm_set().contains(views(requested@)[k]) by {
            if !actor.bypass && !views(current@).contains(requested@[k]@) {
                let m = choose|m: int|
                    0 <= m < views(added@).len() && views(added@)[m] == requested@[k]@;
                assert(actor.perm_set().contains(added@[m]@));
            }
        }
        }
    }
    Ok(())
}

/// The permission gate: the actor's permissions when they hold `permission`,
/// the missing-permission error otherwise; an earlier error passes unchanged.
pub open spec fn gate(
    actor: Result<MemberPermissions, (u16, String)>,
    permission: Seq<char>,
) -> Result<MemberPermissions, (u16, Seq<char>)> {
    match actor {
        Err(e) => Err(error_view(e)),
        Ok(m) => if m.grants(permission) {
            Ok(m)
        } else {
            Err((STATUS_FORBIDDEN, missing_permission_body(permission)))
        },
    }
}

/// `actor` may act on a role at `position` (strictly below their highest
/// role, unless they bypass).
pub open spec fn may_act_on(actor: MemberPermissions, position: int) -> bool {
    actor.bypass || position > actor.highest_position
}

/// The body of the role-not-found error.
pub open spec fn role_not_found_body() -> Seq<char> {
    "Role not found or does not belong to this guild"@
}

fn gate_manage_roles(actor: Result<MemberPermissions, (u16, String)>) -> (r: Result<
    MemberPermissions,
    (u16, String),
>)
    ensures
        result_view(r) == gate(actor, "manage_roles"@),
{
    let ghost a = actor;
    let r = require_permission(actor, "manage_roles");
    proof {
        match a {
            Ok(m) => {
                if !m.grants("manage_roles"@) {
                    assert(r matches Err(e) && is_api_error(
                        e,
                        STATUS_FORBIDDEN,
                        missing_permission_body("manage_roles"@),
                    ));
                }
            },
            Err(_) => {},
        }
    }
    r
}

fn role_not_found() -> (r: (u16, String))
    ensures
        error_view(r) == (STATUS_NOT_FOUND, role_not_found_body()),
{
    (STATUS_NOT_FOUND, owned("Role not found or does not belong to this guild"))
}

/// The permissions of `permissions` that belong to the vocabulary, in order.
pub fn known_permissions(permissions: &Vec<String>) -> (r: Vec<String>)
    ensures
        views(r@) == views(permissions@).filter(|p: Seq<char>| is_known(p)),
{
    let mut r: Vec<String> = Vec::new();
    let mut i: usize = 0;
    while i < permissions.len()
        invariant
            i <= permissions@.len(),
            views(r@) == views(permissions@.take(i as int)).filter(|p: Seq<char>| is_known(p)),
        decreases permissions@.len() - i,
    {
        let ghost before = views(permissions@.take(i as int));
        proof {
            assert(views(permissions@.take(i + 1)) =~= before.push(permissions@[i as int]@));
            before.lemma_filter_push(permissions@[i as int]@, |p: Seq<char>| is_known(p));
        }
        if is_known_permission(permissions[i].as_str()) {
            r.push(permissions[i].clone());
            proof {
                assert(views(r@) =~= before.filter(|p: Seq<char>| is_known(p)).push(
                    permissions@[i as int]@,
                ));
            }
        }
        i = i + 1;
    }
    assert(permissions@.take(permissions@.len() as int) =~= permissions@);
    r
}

/// The role to create in guild `guild_id`, when `actor` may create it:
/// every permission must be in the vocabulary (`400` otherwise, checked
/// first), the actor must hold `manage_roles`, the position must be strictly
/// below the actor's highest role, and the actor must hold every permission
/// given (the last two unless bypassing; role-hierarchy error otherwise).
pub fn create_role(
    guild_id: &String,
    actor: Result<MemberPermissions, (u16, String)>,
    name: String,
    color: String,
    position: i32,
    permissions: Vec<String>,
) -> (r: Result<Role, (u16, String)>)
    ensures
        !all_known(views(permissions@)) ==> result_view(r) == Err::<Role, (u16, Seq<char>)>(
            (
                400,
                unknown_permissions_body(
                    views(permissions@).filter(|p: Seq<char>| !is_known(p)),
                ),
            ),
        ),
        all_known(views(permissions@)) ==> match gate(actor, "manage_roles"@) {
            Err(e) => result_view(r) == Err::<Role, (u16, Seq<char>)>(e),
            Ok(m) => if !may_act_on(m, position as int) || !grant_allowed(
                m,
                Seq::empty(),
                views(permissions@),
            ) {
                result_view(r) == Err::<Role, (u16, Seq<char>)>(
                    (STATUS_FORBIDDEN, role_hierarchy_body()),
                )
            } else {
                r matches Ok(role) && role.id is None && role.guild@ == guild_id@ && role.name
                    == name && role.color == color && role.position == position
                    && role.permissions@ == permissions@
            },
        },
{
    match validate_vocabulary(permissions.as_slice()) {
        Err(e) => {
            return Err(e);
        },
        Ok(()) => {},
    }
    let actor = match gate_manage_roles(actor) {
        Err(e) => {
            return Err(e);
        },
        Ok(m) => m,
    };
    if !actor.can_act_on_position(position) {
        return Err(role_hierarchy_error());
    }
    let none: Vec<String> = Vec::new();
    proof {
        assert(views(none@) =~= Seq::<Seq<char>>::empty());
    }
    match assert_can_grant(&actor, &none, permissions.as_slice()) {
        Err(e) => {
            return Err(e);
        },
        Ok(()) => {},
    }
    Ok(
        Role {
            id: None,
            guild: guild_id.clone(),
            name,
            color,
            position,
            permissions,
        },
    )
}

/// The permissions that a role keeps when an update does not set them: its
/// stored permissions, without those outside the vocabulary.
pub open spec fn kept_permissions(role: Role) -> Seq<Seq<char>> {
    views(role.permissions@).filter(|p: Seq<char>| is_known(p))
}

/// The verdict on updating `role` (`None` when not found in the guild).
pub open spec fn update_role_verdict(
    actor: Result<MemberPermissions, (u16, String)>,
    role: Option<Role>,
    position: Option<i32>,
    permissions: Option<Vec<String>>,
) -> Result<(), (u16, Seq<char>)> {
    let vocabulary_error = match permissions {
        Some(ps) => !all_known(views(ps@)),
        None => false,
    };
    if vocabulary_error {
        let ps = permissions.unwrap();
        Err(
            (
                400,
                unknown_permissions_body(views(ps@).filter(|p: Seq<char>| !is_known(p))),
            ),
        )
    } else {
        match gate(actor, "manage_roles"@) {
            Err(e) => Err(e),
            Ok(m) => match role {
                None => Err((STATUS_NOT_FOUND, role_not_found_body())),
                Some(old) => {
                    let new_position = match position {
                        Some(p) => p,
                        None => old.position,
                    };
                    if !may_act_on(m, old.position as int) || !may_act_on(
                        m,
                        new_position as int,
                    ) {
                        Err((STATUS_FORBIDDEN, role_hierarchy_body()))
                    } else if permissions matches Some(ps) && !grant_allowed(
                        m,
                        kept_permissions(old),
                        views(ps@),
                    ) {
                        Err((STATUS_FORBIDDEN, role_hierarchy_body()))
                    } else {
                        Ok(())
                    }
                },
            },
        }
    }
}

/// The updated role, when `actor` may update `role` (`None` when not found
/// in the guild): unset fields keep their value; the permissions, when not
/// set, keep the stored ones without those outside the vocabulary. Checks,
/// in order: vocabulary (`400`), `manage_roles`, role found (`404`), the
/// role's current and new positions strictly below the actor's highest role,
/// and every added permission held by the actor (role-hierarchy error).
pub fn update_role(
    actor: Result<MemberPermissions, (u16, String)>,
    role: Option<Role>,
    name: Option<String>,
    color: Option<String>,
    position: Option<i32>,
    permissions: Option<Vec<String>>,
) -> (r: Result<Role, (u16, String)>)
    ensures
        match update_role_verdict(actor, role, position, permissions) {
            Err(e) => result_view(r) == Err::<Role, (u16, Seq<char>)>(e),
            Ok(()) => r matches Ok(nr) && {
                let old = role.unwrap();
                &&& nr.id == old.id
                &&& nr.guild == old.guild
                &&& nr.name == (match name {
                    Some(n) => n,
                    None => old.name,
                })
                &&& nr.color == (match color {
                    Some(c) => c,
                    None => old.color,
                })
                &&& nr.position == (match position {
                    Some(p) => p,
                    None => old.position,
                })
                &&& views(nr.permissions@) == (match permissions {
                    Some(ps) => views(ps@),
                    None => kept_permissions(old),
                })
            },
        },
        r matches Ok(nr) ==> all_known(views(nr.permissions@)),
{
    match &permissions {
        Some(ps) => match validate_vocabulary(ps.as_slice()) {
            Err(e) => {
                return Err(e);
            },
            Ok(()) => {},
        },
        None => {},
    }
    let actor = match gate_manage_roles(actor) {
        Err(e) => {
            return Err(e);
        },
        Ok(m) => m,
    };
    let role = match role {
        None => {
            return Err(role_not_found());
        },
        Some(r) => r,
    };
    if !actor.can_act_on_position(role.position) {
        return Err(role_hierarchy_error());
    }
    let new_position = match position {
        Some(p) => p,
        None => role.position,
    };
    if !actor.can_act_on_position(new_position) {
        return Err(role_hierarchy_error());
    }
    let current = known_permissions(&role.permissions);
    let new_permissions = match permissions {
        Some(requested) => {
            match assert_can_grant(&actor, &current, requested.as_slice()) {
                Err(e) => {
                    return Err(e);
                },
                Ok(()) => {},
            }
            requested
        },
        None => current,
    };
    proof {
        broadcast use vstd::seq_lib::group_filter_ensures;

        assert forall|i: int| 0 <= i < views(new_permissions@).len() implies is_known(
            #[trigger] views(new_permissions@)[i],
        ) by {
            if permissions is None {
                assert(views(role.permissions@).filter(|p: Seq<char>| is_known(p)).contains(
                    views(new_permissions@)[i],
                ));
            }
        }
    }
    let name = match name {
        Some(n) => n,
        None => role.name,
    };
    let color = match color {
        Some(c) => c,
        None => role.color,
    };
    Ok(
        Role {
            id: role.id,
            guild: role.guild,
            name,
            color,
            position: new_position,
            permissions: new_permissions,
        },
    )
}

/// The verdict on deleting, or removing from a member, the role `role`
/// (`None` when not found in the guild): `manage_roles`, role found (`404`),
/// the role strictly below the actor's highest role (role-hierarchy error).
pub open spec fn role_action_verdict(
    actor: Result<MemberPermissions, (u16, String)>,
    role: Option<Role>,
) -> Result<(), (u16, Seq<char>)> {
    match gate(actor, "manage_roles"@) {
        Err(e) => Err(e),
        Ok(m) => match role {
            None => Err((STATUS_NOT_FOUND, role_not_found_body())),
            Some(r) => if !may_act_on(m, r.position as int) {
                Err((STATUS_FORBIDDEN, role_hierarchy_body()))
            } else {
                Ok(())
            },
        },
    }
}

/// Deleting, assigning or removing a role needs `manage_roles`: an actor
/// whose permissions do not grant it is refused with `403` missing
/// `manage_roles`, whatever the role; and whenever such an action is
/// allowed, the actor grants `manage_roles`, the role exists, and the actor
/// bypasses or ranks strictly above it.
pub proof fn lemma_role_actions_need_manage_roles(
    actor: Result<MemberPermissions, (u16, String)>,
    role: Option<Role>,
)
    ensures
        (actor matches Ok(m) && !m.grants("manage_roles"@)) ==> role_action_verdict(actor, role)
            == Err::<(), (u16, Seq<char>)>(
            (STATUS_FORBIDDEN, missing_permission_body("manage_roles"@)),
        ),
        role_action_verdict(actor, role) is Ok ==> (actor matches Ok(m) && m.grants(
            "manage_roles"@,
        ) && (role matches Some(r) && (m.bypass || r.position > m.highest_position))),
{
}

/// The view of an optional role.
pub open spec fn role_view(role: Option<&Role>) -> Option<Role> {
    match role {
        Some(r) => Some(*r),
        None => None,
    }
}

fn role_action(actor: Result<MemberPermissions, (u16, String)>, role: Option<&Role>) -> (r: Result<
    (),
    (u16, String),
>)
    ensures
        result_view(r) == role_action_verdict(actor, role_view(role)),
{
    let actor = match gate_manage_roles(actor) {
        Err(e) => {
            return Err(e);
        },
        Ok(m) => m,
    };
    let role = match role {
        None => {
            return Err(role_not_found());
        },
        Some(r) => r,
    };
    if !actor.can_act_on_position(role.position) {
        return Err(role_hierarchy_error());
    }
    Ok(())
}

/// Whether `actor` may delete `role` (see `role_action_verdict`).
pub fn delete_role(actor: Result<MemberPermissions, (u16, String)>, role: Option<&Role>) -> (r:
    Result<(), (u16, String)>)
    ensures
        result_view(r) == role_action_verdict(actor, role_view(role)),
{
    role_action(actor, role)
}

/// Whether `actor` may take `role` from a member (see `role_action_verdict`).
pub fn remove_role(actor: Result<MemberPermissions, (u16, String)>, role: Option<&Role>) -> (r:
    Result<(), (u16, String)>)
    ensures
        result_view(r) == role_action_verdict(actor, role_view(role)),
{
    role_action(actor, role)
}

/// Whether `actor` may give `role` to a user: as `role_action_verdict`, and
/// then the user must be a member (`404` otherwise).
pub fn assign_role(
    actor: Result<MemberPermissions, (u16, String)>,
    role: Option<&Role>,
    target_is_member: bool,
) -> (r: Result<(), (u16, String)>)
    ensures
        match role_action_verdict(actor, role_view(role)) {
            Err(e) => result_view(r) == Err::<(), (u16, Seq<char>)>(e),
            Ok(()) => if target_is_member {
                r is Ok
            } else {
                result_view(r) == Err::<(), (u16, Seq<char>)>(
                    (STATUS_NOT_FOUND, "Target user is not a member of this guild"@),
                )
            },
        },
{
    match role_action(actor, role) {
        Err(e) => {
            return Err(e);
        },
        Ok(()) => {},
    }
    if !target_is_member {
        return Err((STATUS_NOT_FOUND, owned("Target user is not a member of this guild")));
    }
    Ok(())
}

/// Whether a member may list the roles: any member may.
pub fn list_roles(actor: Result<MemberPermissions, (u16, String)>) -> (r: Result<(), (u16, String)>)
    ensures
        actor is Ok ==> r is Ok,
        actor matches Err(e) ==> r == Err::<(), (u16, String)>(e),
{
    match actor {
        Ok(_) => Ok(()),
        Err(e) => Err(e),
    }
}

/// Whether the member holds `permission`: `false` for a non-member or a
/// missing guild (`403`/`404`), any other error passed on as its message.
pub fn check_permission(perms: Result<MemberPermissions, (u16, String)>, permission: &str) -> (r:
    Result<bool, String>)
    ensures
        perms matches Ok(m) ==> r == Ok::<bool, String>(m.grants(permission@)),
        perms matches Err(e) ==> if e.0 == STATUS_FORBIDDEN || e.0 == STATUS_NOT_FOUND {
            r == Ok::<bool, String>(false)
        } else {
            r == Err::<bool, String>(e.1)
        },
{
    match perms {
        Ok(m) => Ok(m.has(permission)),
        Err((status, e)) => {
            if status == STATUS_FORBIDDEN || status == STATUS_NOT_FOUND {
                Ok(false)
            } else {
                Err(e)
            }
        },
    }
}

/// Whether `actor` may kick a member whose highest role is at
/// `target_position` (an error when the target is not a member): always when
/// bypassing, otherwise only when the target's highest role is strictly below.
pub fn can_kick(actor: &MemberPermissions, target_position: Result<i64, (u16, String)>) -> (r:
    Result<bool, (u16, String)>)
    ensures
        actor.bypass ==> r == Ok::<bool, (u16, String)>(true),
        !actor.bypass ==> match target_position {
            Err(e) => r == Err::<bool, (u16, String)>(e),
            Ok(t) => r == Ok::<bool, (u16, String)>(actor.highest_position < t),
        },
{
    if actor.bypass {
        return Ok(true);
    }
    match target_position {
        Err(e) => Err(e),
        Ok(t) => Ok(actor.highest_position < t),
    }
}

/// The body of a role creation.
#[derive(Debug)]
pub struct CreateRoleRequest {
    pub name: String,
    pub color: String,
    pub position: i32,
    pub permissions: Vec<String>,
}

/// The body of a role update; absent fields stay as they are.
#[derive(Debug)]
pub struct UpdateRoleRequest {
    pub name: Option<String>,
    pub color: Option<String>,
    pub position: Option<i32>,
    pub permissions: Option<Vec<String>>,
}

} // verus!
