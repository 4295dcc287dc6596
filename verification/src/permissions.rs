use vstd::prelude::*;
use vstd::relations::*;

use crate::models::{Channel, ChannelType, MemberOf, PermissionOverwrite, Role};
use crate::text::{
    insert_each_known, remove_each, all_contained, clone_strings, contains_string, insert_absent, join_strings, join_with, json_quote, lemma_string_order_total,
    json_string_literal, owned, sort_strings, string_order, views,
};

verus! {

broadcast use vstd::seq_lib::group_to_multiset_ensures;

/// HTTP status 400.
pub const STATUS_BAD_REQUEST: u16 = 400;

/// HTTP status 401.
pub const STATUS_UNAUTHORIZED: u16 = 401;

/// HTTP status 403.
pub const STATUS_FORBIDDEN: u16 = 403;

/// HTTP status 404.
pub const STATUS_NOT_FOUND: u16 = 404;

/// HTTP status 409.
pub const STATUS_CONFLICT: u16 = 409;

/// HTTP status 413.
pub const STATUS_PAYLOAD_TOO_LARGE: u16 = 413;

/// HTTP status 500.
pub const STATUS_INTERNAL_SERVER_ERROR: u16 = 500;

/// `e` is the error with this status and body.
pub open spec fn is_api_error(e: (u16, String), status: u16, body: Seq<char>) -> bool {
    e.0 == status && e.1@ == body
}

// ---------------------------------------------------------------------------
// Vocabulary
// ---------------------------------------------------------------------------
/// Every permission of the vocabulary, in its documented order.
pub open spec fn all_permissions_spec() -> Seq<Seq<char>> {
    seq![
        "administrator"@,
        "manage_guild"@,
        "manage_roles"@,
        "manage_channels"@,
        "create_invite"@,
        "manage_invites"@,
        "kick_members"@,
        "ban_members"@,
        "manage_nicknames"@,
        "view_channels"@,
        "send_messages"@,
        "attach_files"@,
        "manage_messages"@,
        "mention_everyone"@,
        "connect"@,
        "speak"@,
        "mute_members"@,
        "move_members"@,
    ]
}

/// The permissions that every member holds without any role.
pub open spec fn default_permissions_spec() -> Seq<Seq<char>> {
    seq![
        "view_channels"@,
        "send_messages"@,
        "attach_files"@,
        "create_invite"@,
        "connect"@,
        "speak"@,
    ]
}

/// `p` belongs to the vocabulary.
pub open spec fn is_known(p: Seq<char>) -> bool {
    all_permissions_spec().contains(p)
}

/// Every default permission belongs to the vocabulary.
pub proof fn lemma_defaults_known()
    ensures
        forall|p: Seq<char>| default_permissions_spec().contains(p) ==> is_known(p),
{
    assert forall|p: Seq<char>| default_permissions_spec().contains(p) implies is_known(p) by {
        let k = choose|k: int| 0 <= k < 6 && default_permissions_spec()[k] == p;
        if k == 0 {
            assert(all_permissions_spec()[9] == p);
        } else if k == 1 {
            assert(all_permissions_spec()[10] == p);
        } else if k == 2 {
            assert(all_permissions_spec()[11] == p);
        } else if k == 3 {
            assert(all_permissions_spec()[4] == p);
        } else if k == 4 {
            assert(all_permissions_spec()[14] == p);
        } else {
            assert(all_permissions_spec()[15] == p);
        }
    }
}

/// The whole vocabulary of permissions, in its documented order.
pub fn all_permissions() -> (r: Vec<String>)
    ensures
        views(r@) == all_permissions_spec(),
{
    let r = vec![
        owned("administrator"),
        owned("manage_guild"),
        owned("manage_roles"),
        owned("manage_channels"),
        owned("create_invite"),
        owned("manage_invites"),
        owned("kick_members"),
        owned("ban_members"),
        owned("manage_nicknames"),
        owned("view_channels"),
        owned("send_messages"),
        owned("attach_files"),
        owned("manage_messages"),
        owned("mention_everyone"),
        owned("connect"),
        owned("speak"),
        owned("mute_members"),
        owned("move_members"),
    ];
    assert(views(r@) =~= all_permissions_spec());
    r
}

/// The permissions that every member holds without any role.
pub fn default_permissions() -> (r: Vec<String>)
    ensures
        views(r@) == default_permissions_spec(),
{
    let r = vec![
        owned("view_channels"),
        owned("send_messages"),
        owned("attach_files"),
        owned("create_invite"),
        owned("connect"),
        owned("speak"),
    ];
    assert(views(r@) =~= default_permissions_spec());
    r
}

/// Whether `permission` belongs to the vocabulary.
pub fn is_known_permission(permission: &str) -> (r: bool)
    ensures
        r == is_known(permission@),
{
    contains_string(&all_permissions(), &owned(permission))
}

/// The permissions of `permissions` that are not in the vocabulary, in order.
pub fn unknown_permissions(permissions: &[String]) -> (r: Vec<String>)
    ensures
        views(r@) == views(permissions@).filter(|p: Seq<char>| !is_known(p)),
{
    let mut r: Vec<String> = Vec::new();
    let mut i: usize = 0;
    while i < permissions.len()
        invariant
            i <= permissions@.len(),
            views(r@) == views(permissions@.take(i as int)).filter(|p: Seq<char>| !is_known(p)),
        decreases permissions@.len() - i,
    {
        let ghost before = views(permissions@.take(i as int));
        proof {
            assert(views(permissions@.take(i + 1)) =~= before.push(permissions@[i as int]@));
            before.lemma_filter_push(permissions@[i as int]@, |p: Seq<char>| !is_known(p));
        }
        if !is_known_permission(permissions[i].as_str()) {
            r.push(permissions[i].clone());
            proof {
                assert(views(r@) =~= before.filter(|p: Seq<char>| !is_known(p)).push(
                    permissions@[i as int]@,
                ));
            }
        }
        i = i + 1;
    }
    assert(permissions@.take(permissions@.len() as int) =~= permissions@);
    r
}

// ---------------------------------------------------------------------------
// Stable error bodies
// ---------------------------------------------------------------------------
/// The body `{"error":"unknown_permissions","permissions":[...]}`.
pub open spec fn unknown_permissions_body(unknown: Seq<Seq<char>>) -> Seq<char> {
    "{\"error\":\"unknown_permissions\",\"permissions\":["@ + join_with(
        unknown.map_values(|p: Seq<char>| json_string_literal(p)),
        ","@,
    ) + "]}"@
}

/// The body `{"error":"missing_permission","permission":"..."}`.
pub open spec fn missing_permission_body(permission: Seq<char>) -> Seq<char> {
    "{\"error\":\"missing_permission\",\"permission\":"@ + json_string_literal(permission) + "}"@
}

/// The body of the role-hierarchy violation.
pub open spec fn role_hierarchy_body() -> Seq<char> {
    "{\"error\":\"role_hierarchy\"}"@
}

/// The body of the non-member refusal.
pub open spec fn not_member_body() -> Seq<char> {
    "{\"error\":\"not_member\"}"@
}

/// `400` with the list of permissions outside the vocabulary.
pub fn unknown_permissions_error(unknown: &[String]) -> (r: (u16, String))
    ensures
        is_api_error(r, STATUS_BAD_REQUEST, unknown_permissions_body(views(unknown@))),
{
    let mut quoted: Vec<String> = Vec::new();
    let mut i: usize = 0;
    while i < unknown.len()
        invariant
            i <= unknown@.len(),
            views(quoted@) == views(unknown@.take(i as int)).map_values(
                |p: Seq<char>| json_string_literal(p),
            ),
        decreases unknown@.len() - i,
    {
        let ghost before = views(quoted@);
        let q = json_quote(unknown[i].as_str());
        quoted.push(q);
        proof {
            assert(views(quoted@) =~= before.push(json_string_literal(unknown@[i as int]@)));
            assert(views(unknown@.take(i + 1)) =~= views(unknown@.take(i as int)).push(
                unknown@[i as int]@,
            ));
            assert(views(quoted@) =~= views(unknown@.take(i + 1)).map_values(
                |p: Seq<char>| json_string_literal(p),
            ));
        }
        i = i + 1;
    }
    assert(unknown@.take(unknown@.len() as int) =~= unknown@);
    let mut body = owned("{\"error\":\"unknown_permissions\",\"permissions\":[");
    let list = join_strings(&quoted, ",");
    body.append(list.as_str());
    body.append("]}");
    (STATUS_BAD_REQUEST, body)
}

/// `403` naming the permission that the caller lacks.
pub fn missing_permission_error(permission: &str) -> (r: (u16, String))
    ensures
        is_api_error(r, STATUS_FORBIDDEN, missing_permission_body(permission@)),
{
    let mut body = owned("{\"error\":\"missing_permission\",\"permission\":");
    let quoted = json_quote(permission);
    body.append(quoted.as_str());
    body.append("}");
    (STATUS_FORBIDDEN, body)
}

/// `403` for an action on a role at or above the caller's own.
pub fn role_hierarchy_error() -> (r: (u16, String))
    ensures
        is_api_error(r, STATUS_FORBIDDEN, role_hierarchy_body()),
{
    (STATUS_FORBIDDEN, owned("{\"error\":\"role_hierarchy\"}"))
}

/// `403` for a caller who is not a member of the guild.
pub fn not_member_error() -> (r: (u16, String))
    ensures
        is_api_error(r, STATUS_FORBIDDEN, not_member_body()),
{
    (STATUS_FORBIDDEN, owned("{\"error\":\"not_member\"}"))
}

// ---------------------------------------------------------------------------
// Effective permissions of a member
// ---------------------------------------------------------------------------
/// The effective permissions of a member: `bypass` (owner or administrator)
/// holds every permission; otherwise exactly those of `permissions`.
/// `highest_position` is the position of the member's highest role.
#[derive(Debug)]
pub struct MemberPermissions {
    pub bypass: bool,
    pub permissions: Vec<String>,
    pub highest_position: i64,
}

impl MemberPermissions {
    /// The set of permissions listed.
    pub open spec fn perm_set(&self) -> Set<Seq<char>> {
        views(self.permissions@).to_set()
    }

    /// The listed permissions hold no repeats, as every constructor of the
    /// library leaves them.
    pub open spec fn wf(&self) -> bool {
        views(self.permissions@).no_duplicates()
    }

    /// Whether these permissions grant `p`.
    pub open spec fn grants(&self, p: Seq<char>) -> bool {
        self.bypass || self.perm_set().contains(p)
    }

    /// Whether the member holds `permission`.
    pub fn has(&self, permission: &str) -> (r: bool)
        ensures
            r == self.grants(permission@),
    {
        self.bypass || contains_string(&self.permissions, &owned(permission))
    }

    /// Whether the member may act on a role at `position`: only on roles
    /// strictly below their own highest (a larger position), unless bypassing.
    pub fn can_act_on_position(&self, position: i32) -> (r: bool)
        ensures
            r == (self.bypass || position as i64 > self.highest_position),
    {
        self.bypass || (position as i64) > self.highest_position
    }

    /// Whether the member may grant every permission of `added_permissions`:
    /// only those they hold themselves, unless bypassing.
    pub fn can_grant(&self, added_permissions: &[String]) -> (r: bool)
        ensures
            r == (self.bypass || forall|i: int|
                0 <= i < added_permissions@.len() ==> self.perm_set().contains(
                    #[trigger] added_permissions@[i]@,
                )),
    {
        self.bypass || all_contained(added_permissions, &self.permissions)
    }

    /// The permissions as a list: the whole vocabulary when bypassing,
    /// otherwise the listed permissions in ascending order, each once when
    /// they are well formed.
    pub fn to_list(&self) -> (r: Vec<String>)
        ensures
            self.bypass ==> views(r@) == all_permissions_spec(),
            !self.bypass ==> views(r@) == views(self.permissions@).sort_by(string_order()),
            !self.bypass && self.wf() ==> views(r@).no_duplicates(),
    {
        if self.bypass {
            return all_permissions();
        }
        let r = sort_strings(&self.permissions);
        proof {
            if self.wf() {
                let s = views(self.permissions@);
                lemma_string_order_total();
                s.lemma_sort_by_ensures(string_order());
                s.lemma_multiset_has_no_duplicates();
                let t = s.sort_by(string_order());
                assert forall|x: Seq<char>| t.to_multiset().contains(x) implies t.to_multiset().count(
                    x,
                ) == 1 by {
                    assert(s.to_multiset().contains(x));
                }
                t.lemma_multiset_has_no_duplicates_conv();
            }
        }
        r
    }

    /// A copy of these permissions.
    pub fn duplicate(&self) -> (r: MemberPermissions)
        ensures
            r.bypass == self.bypass,
            r.permissions@ == self.permissions@,
            r.highest_position == self.highest_position,
    {
        MemberPermissions {
            bypass: self.bypass,
            permissions: clone_strings(&self.permissions),
            highest_position: self.highest_position,
        }
    }
}

/// The whole vocabulary, as the permission list of a bypassing member.
pub fn full_permission_set() -> (r: Vec<String>)
    ensures
        views(r@) == all_permissions_spec(),
{
    all_permissions()
}

/// The position of the highest of `roles` (the smallest number), or
/// `i64::MAX` when there is none.
pub fn highest_role_position(roles: &[Role]) -> (r: i64)
    ensures
        roles@.len() == 0 ==> r == i64::MAX,
        forall|i: int| 0 <= i < roles@.len() ==> r <= #[trigger] roles@[i].position,
        roles@.len() > 0 ==> exists|i: int| 0 <= i < roles@.len() && r == #[trigger] roles@[i].position,
{
    let mut best: i64 = i64::MAX;
    let mut i: usize = 0;
    while i < roles.len()
        invariant
            i <= roles@.len(),
            forall|k: int| 0 <= k < i ==> best <= #[trigger] roles@[k].position,
            i == 0 ==> best == i64::MAX,
            i > 0 ==> exists|k: int| 0 <= k < i && best == #[trigger] roles@[k].position,
        decreases roles@.len() - i,
    {
        let p = roles[i].position as i64;
        if p < best {
            best = p;
        }
        i = i + 1;
    }
    best
}

/// Some role of `roles` lists `p`.
pub open spec fn role_grants(roles: Seq<Role>, p: Seq<char>) -> bool {
    exists|i: int, j: int|
        0 <= i < roles.len() && 0 <= j < roles[i].permissions@.len()
            && #[trigger] roles[i].permissions@[j]@ == p
}

/// `p` is held by a member with `roles`: it is a default permission, or a
/// known permission of one of the roles (the union of the base and the roles).
pub open spec fn member_grants(roles: Seq<Role>, p: Seq<char>) -> bool {
    default_permissions_spec().contains(p) || (is_known(p) && role_grants(roles, p))
}

/// Some role among the first `i` of `roles`, or among the first `j`
/// permissions of role `i`, lists `p`.
spec fn role_grants_upto(roles: Seq<Role>, i: int, j: int, p: Seq<char>) -> bool {
    (exists|a: int, b: int|
        0 <= a < i && 0 <= b < roles[a].permissions@.len() && #[trigger] roles[a].permissions@[b]@
            == p) || (exists|b: int|
        0 <= b < j && #[trigger] roles[i].permissions@[b]@ == p)
}

/// The permissions that `roles` grant on top of the defaults, as a list
/// without duplicates.
fn union_of_roles(roles: &[Role]) -> (r: Vec<String>)
    ensures
        views(r@).no_duplicates(),
        views(r@).to_set() == Set::new(|p: Seq<char>| member_grants(roles@, p)),
{
    let defaults = default_permissions();
    let mut perms: Vec<String> = Vec::new();
    let mut k: usize = 0;
    while k < defaults.len()
        invariant
            k <= defaults@.len(),
            views(defaults@) == default_permissions_spec(),
            views(perms@).no_duplicates(),
            views(perms@).to_set() == default_permissions_spec().take(k as int).to_set(),
        decreases defaults@.len() - k,
    {
        insert_absent(&mut perms, defaults[k].clone());
        proof {
            assert(default_permissions_spec().take(k + 1) =~= default_permissions_spec().take(
                k as int,
            ).push(defaults@[k as int]@));
            default_permissions_spec().take(k as int).lemma_push_to_set_commute(
                defaults@[k as int]@,
            );
        }
        k = k + 1;
    }
    proof {
        assert(default_permissions_spec().take(6) =~= default_permissions_spec());
        assert forall|p: Seq<char>|
            views(perms@).to_set().contains(p) == default_permissions_spec().contains(p) by {}
        assert(role_grants_upto(roles@, 0, 0, "x"@) == false);
        assert(views(perms@).to_set() =~= Set::new(
            |p: Seq<char>|
                default_permissions_spec().contains(p) || (is_known(p) && role_grants_upto(
                    roles@,
                    0,
                    0,
                    p,
                )),
        ));
    }
    let mut i: usize = 0;
    while i < roles.len()
        invariant
            i <= roles@.len(),
            views(perms@).no_duplicates(),
            views(perms@).to_set() == Set::new(
                |p: Seq<char>|
                    default_permissions_spec().contains(p) || (is_known(p) && role_grants_upto(
                        roles@,
                        i as int,
                        0,
                        p,
                    )),
            ),
        decreases roles@.len() - i,
    {
        let role = &roles[i];
        let mut j: usize = 0;
        while j < role.permissions.len()
            invariant
                i < roles@.len(),
                *role == roles@[i as int],
                j <= role.permissions@.len(),
                views(perms@).no_duplicates(),
                views(perms@).to_set() == Set::new(
                    |p: Seq<char>|
                        default_permissions_spec().contains(p) || (is_known(p) && role_grants_upto(
                            roles@,
                            i as int,
                            j as int,
                            p,
                        )),
                ),
            decreases role.permissions@.len() - j,
        {
            let ghost before = views(perms@).to_set();
            let ghost q = role.permissions@[j as int]@;
            if is_known_permission(role.permissions[j].as_str()) {
                insert_absent(&mut perms, role.permissions[j].clone());
            }
            proof {
                assert(views(perms@).to_set() =~= Set::new(
                    |p: Seq<char>|
                        default_permissions_spec().contains(p) || (is_known(p) && role_grants_upto(
                            roles@,
                            i as int,
                            j + 1,
                            p,
                        )),
                )) by {
                    assert forall|p: Seq<char>|
                        role_grants_upto(roles@, i as int, j + 1, p) == (role_grants_upto(
                            roles@,
                            i as int,
                            j as int,
                            p,
                        ) || p == q) by {
                        if p == q {
                            assert(roles@[i as int].permissions@[j as int]@ == p);
                        }
                        if role_grants_upto(roles@, i as int, j + 1, p) && !role_grants_upto(
                            roles@,
                            i as int,
                            j as int,
                            p,
                        ) {
                            let b = choose|b: int|
                                0 <= b < j + 1 && #[trigger] roles@[i as int].permissions@[b]@
                                    == p;
                            assert(b == j);
                        }
                    }
                }
            }
            j = j + 1;
        }
        proof {
            assert forall|p: Seq<char>|
                role_grants_upto(roles@, i + 1, 0, p) == role_grants_upto(
                    roles@,
                    i as int,
                    role.permissions@.len() as int,
                    p,
                ) by {
                if role_grants_upto(roles@, i + 1, 0, p) {
                    let (a, b) = choose|a: int, b: int|
                        0 <= a < i + 1 && 0 <= b < roles@[a].permissions@.len()
                            && #[trigger] roles@[a].permissions@[b]@ == p;
                    if a == i {
                        assert(roles@[i as int].permissions@[b]@ == p);
                    }
                }
                if role_grants_upto(roles@, i as int, role.permissions@.len() as int, p) {
                    if exists|b: int|
                        0 <= b < role.permissions@.len() && #[trigger] roles@[i as int].permissions@[b]@
                            == p {
                        let b = choose|b: int|
                            0 <= b < role.permissions@.len()
                                && #[trigger] roles@[i as int].permissions@[b]@ == p;
                        assert(roles@[i as int].permissions@[b]@ == p);
                    }
                }
            }
            assert(views(perms@).to_set() =~= Set::new(
                |p: Seq<char>|
                    default_permissions_spec().contains(p) || (is_known(p) && role_grants_upto(
                        roles@,
                        i + 1,
                        0,
                        p,
                    )),
            ));
        }
        i = i + 1;
    }
    proof {
        assert forall|p: Seq<char>|
            role_grants_upto(roles@, roles@.len() as int, 0, p) == role_grants(roles@, p) by {
            if role_grants(roles@, p) {
                let (a, b) = choose|a: int, b: int|
                    0 <= a < roles@.len() && 0 <= b < roles@[a].permissions@.len()
                        && #[trigger] roles@[a].permissions@[b]@ == p;
                assert(roles@[a].permissions@[b]@ == p);
            }
        }
        assert(views(perms@).to_set() =~= Set::new(|p: Seq<char>| member_grants(roles@, p)));
    }
    perms
}

/// What the permission computation gives for `user_id` in a guild owned by
/// `guild_owner` (`None` when the guild was not found), where `is_member`
/// tells whether the user is a member and `roles` are their roles: the owner
/// bypasses everything and has no role; a member holds the union of the
/// defaults and the known permissions of their roles, and bypasses everything
/// when that union holds `administrator`; `highest_position` is the smallest
/// role position, or `i64::MAX` without roles.
pub open spec fn permissions_outcome(
    guild_owner: Option<Seq<char>>,
    user_id: Seq<char>,
    is_member: bool,
    roles: Seq<Role>,
    r: Result<MemberPermissions, (u16, String)>,
) -> bool {
    match guild_owner {
        None => r matches Err(e) && is_api_error(e, STATUS_NOT_FOUND, "Guild not found"@),
        Some(o) => if o == user_id {
            r matches Ok(m) && m.bypass && views(m.permissions@) == all_permissions_spec()
                && m.highest_position == i64::MIN
        } else if !is_member {
            r matches Err(e) && is_api_error(e, STATUS_FORBIDDEN, not_member_body())
        } else {
            r matches Ok(m) && m.bypass == member_grants(roles, "administrator"@) && (m.bypass
                ==> views(m.permissions@) == all_permissions_spec()) && (!m.bypass ==> (
            m.perm_set() == Set::new(|p: Seq<char>| member_grants(roles, p)) && views(
                m.permissions@,
            ).no_duplicates())) && (roles.len() == 0 ==> m.highest_position == i64::MAX)
                && (forall|i: int|
                0 <= i < roles.len() ==> m.highest_position <= #[trigger] roles[i].position) && (
            roles.len() > 0 ==> exists|i: int|
                0 <= i < roles.len() && m.highest_position == #[trigger] roles[i].position)
        },
    }
}

/// The view of an optional owner id.
pub open spec fn owner_view(guild_owner: Option<&String>) -> Option<Seq<char>> {
    match guild_owner {
        Some(o) => Some(o@),
        None => None,
    }
}

/// The effective permissions of `user_id` in a guild owned by `guild_owner`
/// (`None` when the guild was not found), given the user's membership (`None`
/// when not a member) and the roles that its role ids name, together with
/// those role ids (none for the owner). See `permissions_outcome`.
pub fn get_member_permissions_with_roles(
    guild_owner: Option<&String>,
    user_id: &String,
    membership: Option<&MemberOf>,
    roles: &[Role],
) -> (r: Result<(MemberPermissions, Vec<String>), (u16, String)>)
    ensures
        permissions_outcome(
            owner_view(guild_owner),
            user_id@,
            membership is Some,
            roles@,
            match r {
                Ok((m, _)) => Ok(m),
                Err(e) => Err(e),
            },
        ),
        r matches Ok((m, ids)) ==> (if m.highest_position == i64::MIN && guild_owner.unwrap()@
            == user_id@ {
            ids@.len() == 0
        } else {
            ids@ == membership.unwrap().roles@
        }),
{
    let owner = match guild_owner {
        None => {
            return Err((STATUS_NOT_FOUND, owned("Guild not found")));
        },
        Some(o) => o,
    };
    if *owner == *user_id {
        return Ok(
            (
                MemberPermissions {
                    bypass: true,
                    permissions: full_permission_set(),
                    highest_position: i64::MIN,
                },
                Vec::new(),
            ),
        );
    }
    let membership = match membership {
        None => {
            return Err(not_member_error());
        },
        Some(m) => m,
    };
    let role_ids = clone_strings(&membership.roles);
    let highest_position = highest_role_position(roles);
    let permissions = union_of_roles(roles);
    let admin = owned("administrator");
    if contains_string(&permissions, &admin) {
        proof {
            assert(views(permissions@).to_set().contains("administrator"@));
        }
        return Ok(
            (
                MemberPermissions { bypass: true, permissions: full_permission_set(), highest_position },
                role_ids,
            ),
        );
    }
    proof {
        if member_grants(roles@, "administrator"@) {
            assert(views(permissions@).to_set().contains("administrator"@));
            assert(views(permissions@).contains("administrator"@));
        }
    }
    Ok((MemberPermissions { bypass: false, permissions, highest_position }, role_ids))
}

/// The effective permissions alone (see `permissions_outcome`).
pub fn get_member_permissions(
    guild_owner: Option<&String>,
    user_id: &String,
    membership: Option<&MemberOf>,
    roles: &[Role],
) -> (r: Result<MemberPermissions, (u16, String)>)
    ensures
        permissions_outcome(owner_view(guild_owner), user_id@, membership is Some, roles@, r),
{
    match get_member_permissions_with_roles(guild_owner, user_id, membership, roles) {
        Ok((m, _)) => Ok(m),
        Err(e) => Err(e),
    }
}

// ---------------------------------------------------------------------------
// Channel overwrites
// ---------------------------------------------------------------------------
/// Overwrite `k` targets one of the member's roles `targets`.
pub open spec fn targets_role(
    ows: Seq<PermissionOverwrite>,
    targets: Set<Seq<char>>,
    k: int,
) -> bool {
    0 <= k < ows.len() && targets.contains(ows[k].target@)
}

/// Some overwrite among the first `n` that targets one of the member's roles
/// denies `p`.
pub open spec fn roles_deny_upto(
    ows: Seq<PermissionOverwrite>,
    targets: Set<Seq<char>>,
    n: int,
    p: Seq<char>,
) -> bool {
    exists|k: int|
        0 <= k < n && targets_role(ows, targets, k) && #[trigger] views(ows[k].deny@).contains(p)
}

/// Some overwrite among the first `n` that targets one of the member's roles
/// allows `p`.
pub open spec fn roles_allow_upto(
    ows: Seq<PermissionOverwrite>,
    targets: Set<Seq<char>>,
    n: int,
    p: Seq<char>,
) -> bool {
    exists|k: int|
        0 <= k < n && targets_role(ows, targets, k) && #[trigger] views(ows[k].allow@).contains(p)
}

/// Overwrite `k` is the first one that targets the user `uid`.
pub open spec fn is_first_user_overwrite(
    ows: Seq<PermissionOverwrite>,
    uid: Seq<char>,
    k: int,
) -> bool {
    0 <= k < ows.len() && ows[k].target@ == uid && forall|j: int|
        0 <= j < k ==> #[trigger] ows[j].target@ != uid
}

/// Whether `p` holds after the role overwrites: the base permission unless a
/// role overwrite denies it, or a known permission that a role overwrite allows.
pub open spec fn after_role_overwrites(
    base: Set<Seq<char>>,
    role_ids: Seq<String>,
    ows: Seq<PermissionOverwrite>,
    p: Seq<char>,
) -> bool {
    let t = views(role_ids).to_set();
    (base.contains(p) && !roles_deny_upto(ows, t, ows.len() as int, p)) || (is_known(p)
        && roles_allow_upto(ows, t, ows.len() as int, p))
}

/// Whether `p` holds on a channel with overwrites `ows` for a member whose
/// guild-level permissions are `base`, with roles `role_ids`, of id `uid`.
/// From lowest to highest priority: base, role denies, role allows, the
/// user's deny, the user's allow (the first overwrite that targets the user).
pub open spec fn channel_grants(
    base: Set<Seq<char>>,
    role_ids: Seq<String>,
    uid: Seq<char>,
    ows: Seq<PermissionOverwrite>,
    p: Seq<char>,
) -> bool {
    let mid = after_role_overwrites(base, role_ids, ows, p);
    if exists|k: int| is_first_user_overwrite(ows, uid, k) {
        let k = choose|k: int| is_first_user_overwrite(ows, uid, k);
        (mid && !views(ows[k].deny@).contains(p)) || (is_known(p) && views(
            ows[k].allow@,
        ).contains(p))
    } else {
        mid
    }
}

proof fn lemma_first_user_overwrite_unique(
    ows: Seq<PermissionOverwrite>,
    uid: Seq<char>,
    a: int,
    b: int,
)
    requires
        is_first_user_overwrite(ows, uid, a),
        is_first_user_overwrite(ows, uid, b),
    ensures
        a == b,
{
    if a < b {
        assert(ows[a].target@ != uid);
    } else if b < a {
        assert(ows[b].target@ != uid);
    }
}

/// The permissions of a member on a channel: guild-level permissions `base`
/// with the channel's `overwrites` applied (see `channel_grants`). A bypassing
/// member (owner, `administrator`) is unaffected by overwrites.
pub fn resolve_channel_overwrites(
    base: MemberPermissions,
    member_role_ids: &Vec<String>,
    user_id: &str,
    overwrites: &Vec<PermissionOverwrite>,
) -> (r: MemberPermissions)
    ensures
        base.bypass ==> r == base,
        !base.bypass ==> !r.bypass && r.highest_position == base.highest_position && r.perm_set()
            == Set::new(
            |p: Seq<char>|
                channel_grants(base.perm_set(), member_role_ids@, user_id@, overwrites@, p),
        ),
        base.wf() ==> r.wf(),
{
    if base.bypass {
        return base;
    }
    let ghost t = views(member_role_ids@).to_set();
    let ghost b = base.perm_set();
    let ghost ows = overwrites@;
    let highest_position = base.highest_position;
    let mut permissions = base.permissions;
    let mut k: usize = 0;
    while k < overwrites.len()
        invariant
            k <= ows.len(),
            ows == overwrites@,
            t == views(member_role_ids@).to_set(),
            views(permissions@).to_set() == b.filter(
                |p: Seq<char>| !roles_deny_upto(ows, t, k as int, p),
            ),
            views(base.permissions@).no_duplicates() ==> views(permissions@).no_duplicates(),
        decreases ows.len() - k,
    {
        let ow = &overwrites[k];
        let targeted = contains_string(member_role_ids, &ow.target);
        if targeted {
            remove_each(&mut permissions, &ow.deny);
        }
        proof {
            assert(targeted == targets_role(ows, t, k as int));
            assert(views(permissions@).to_set() =~= b.filter(
                |p: Seq<char>| !roles_deny_upto(ows, t, k + 1, p),
            )) by {
                assert forall|p: Seq<char>|
                    roles_deny_upto(ows, t, k + 1, p) == (roles_deny_upto(ows, t, k as int, p) || (
                    targeted && views(ows[k as int].deny@).contains(p))) by {
                    if roles_deny_upto(ows, t, k + 1, p) && !roles_deny_upto(ows, t, k as int, p) {
                        let kk = choose|kk: int|
                            0 <= kk < k + 1 && targets_role(ows, t, kk) && #[trigger] views(
                                ows[kk].deny@,
                            ).contains(p);
                        assert(kk == k);
                    }
                }
            }
        }
        k = k + 1;
    }
    let ghost after_deny = views(permissions@).to_set();
    let mut k: usize = 0;
    while k < overwrites.len()
        invariant
            k <= ows.len(),
            ows == overwrites@,
            t == views(member_role_ids@).to_set(),
            after_deny == b.filter(|p: Seq<char>| !roles_deny_upto(ows, t, ows.len() as int, p)),
            views(permissions@).to_set() == after_deny.union(
                Set::new(|p: Seq<char>| is_known(p) && roles_allow_upto(ows, t, k as int, p)),
            ),
            views(base.permissions@).no_duplicates() ==> views(permissions@).no_duplicates(),
        decreases ows.len() - k,
    {
        let ow = &overwrites[k];
        let targeted = contains_string(member_role_ids, &ow.target);
        if targeted {
            insert_each_known(&mut permissions, &ow.allow);
        }
        proof {
            assert(targeted == targets_role(ows, t, k as int));
            assert(views(permissions@).to_set() =~= after_deny.union(
                Set::new(|p: Seq<char>| is_known(p) && roles_allow_upto(ows, t, k + 1, p)),
            )) by {
                assert forall|p: Seq<char>|
                    roles_allow_upto(ows, t, k + 1, p) == (roles_allow_upto(ows, t, k as int, p)
                        || (targeted && views(ows[k as int].allow@).contains(p))) by {
                    if roles_allow_upto(ows, t, k + 1, p) && !roles_allow_upto(
                        ows,
                        t,
                        k as int,
                        p,
                    ) {
                        let kk = choose|kk: int|
                            0 <= kk < k + 1 && targets_role(ows, t, kk) && #[trigger] views(
                                ows[kk].allow@,
                            ).contains(p);
                        assert(kk == k);
                    }
                }
            }
        }
        k = k + 1;
    }
    let ghost mid = views(permissions@).to_set();
    proof {
        assert(mid =~= Set::new(
            |p: Seq<char>| after_role_overwrites(b, member_role_ids@, ows, p),
        ));
    }
    let uid = owned(user_id);
    let mut found: Option<usize> = None;
    let mut j: usize = 0;
    while j < overwrites.len() && found.is_none()
        invariant
            j <= ows.len(),
            ows == overwrites@,
            uid@ == user_id@,
            found is None ==> forall|i: int| 0 <= i < j ==> #[trigger] ows[i].target@ != user_id@,
            found matches Some(k) ==> is_first_user_overwrite(ows, user_id@, k as int),
        decreases ows.len() - j + (if found is None { 1int } else { 0int }),
    {
        if overwrites[j].target == uid {
            found = Some(j);
        } else {
            j = j + 1;
        }
    }
    proof {
        if found is None {
            assert forall|kk: int| !is_first_user_overwrite(ows, user_id@, kk) by {
                if 0 <= kk < ows.len() {
                    assert(ows[kk].target@ != user_id@);
                }
            }
        }
    }
    match found {
        Some(k) => {
            proof {
                assert(is_first_user_overwrite(ows, user_id@, k as int));
                let c = choose|c: int| is_first_user_overwrite(ows, user_id@, c);
                lemma_first_user_overwrite_unique(ows, user_id@, c, k as int);
            }
            remove_each(&mut permissions, &overwrites[k].deny);
            insert_each_known(&mut permissions, &overwrites[k].allow);
        },
        None => {},
    }
    let r = MemberPermissions { bypass: false, permissions, highest_position };
    proof {
        assert(r.perm_set() =~= Set::new(
            |p: Seq<char>| channel_grants(b, member_role_ids@, user_id@, ows, p),
        ));
    }
    r
}

/// A user overwrite that allows a known permission grants it, whatever the
/// role overwrites say.
pub proof fn lemma_user_allow_wins(
    base: Set<Seq<char>>,
    role_ids: Seq<String>,
    uid: Seq<char>,
    ows: Seq<PermissionOverwrite>,
    k: int,
    p: Seq<char>,
)
    requires
        is_first_user_overwrite(ows, uid, k),
        views(ows[k].allow@).contains(p),
        is_known(p),
    ensures
        channel_grants(base, role_ids, uid, ows, p),
{
    let c = choose|c: int| is_first_user_overwrite(ows, uid, c);
    lemma_first_user_overwrite_unique(ows, uid, c, k);
}

/// A user overwrite that denies a permission, without allowing it, removes it
/// even when a role overwrite allows it.
pub proof fn lemma_user_deny_beats_role_allow(
    base: Set<Seq<char>>,
    role_ids: Seq<String>,
    uid: Seq<char>,
    ows: Seq<PermissionOverwrite>,
    k: int,
    p: Seq<char>,
)
    requires
        is_first_user_overwrite(ows, uid, k),
        views(ows[k].deny@).contains(p),
        !views(ows[k].allow@).contains(p),
    ensures
        !channel_grants(base, role_ids, uid, ows, p),
{
    let c = choose|c: int| is_first_user_overwrite(ows, uid, c);
    lemma_first_user_overwrite_unique(ows, uid, c, k);
}

/// A known permission that an overwrite of one of the member's roles allows
/// is granted, even when another role overwrite denies it, unless the user's
/// own overwrite denies it.
pub proof fn lemma_role_allow_beats_role_deny(
    base: Set<Seq<char>>,
    role_ids: Seq<String>,
    uid: Seq<char>,
    ows: Seq<PermissionOverwrite>,
    k: int,
    p: Seq<char>,
)
    requires
        targets_role(ows, views(role_ids).to_set(), k),
        views(ows[k].allow@).contains(p),
        is_known(p),
        forall|u: int| is_first_user_overwrite(ows, uid, u) ==> !views(ows[u].deny@).contains(p),
    ensures
        channel_grants(base, role_ids, uid, ows, p),
{
    assert(roles_allow_upto(ows, views(role_ids).to_set(), ows.len() as int, p));
    if exists|u: int| is_first_user_overwrite(ows, uid, u) {
        let u = choose|u: int| is_first_user_overwrite(ows, uid, u);
        assert(!views(ows[u].deny@).contains(p));
    }
}

/// A permission that an overwrite of one of the member's roles denies, that
/// no role overwrite allows and that the user's overwrite does not allow, is
/// not granted.
pub proof fn lemma_role_deny_removes(
    base: Set<Seq<char>>,
    role_ids: Seq<String>,
    uid: Seq<char>,
    ows: Seq<PermissionOverwrite>,
    k: int,
    p: Seq<char>,
)
    requires
        targets_role(ows, views(role_ids).to_set(), k),
        views(ows[k].deny@).contains(p),
        !roles_allow_upto(ows, views(role_ids).to_set(), ows.len() as int, p),
        forall|u: int| is_first_user_overwrite(ows, uid, u) ==> !views(ows[u].allow@).contains(p),
    ensures
        !channel_grants(base, role_ids, uid, ows, p),
{
    assert(roles_deny_upto(ows, views(role_ids).to_set(), ows.len() as int, p));
    if exists|u: int| is_first_user_overwrite(ows, uid, u) {
        let u = choose|u: int| is_first_user_overwrite(ows, uid, u);
        assert(!views(ows[u].allow@).contains(p));
    }
}

/// Without overwrites, a channel grants exactly the guild-level permissions.
pub proof fn lemma_no_overwrites_keep_base(
    base: Set<Seq<char>>,
    role_ids: Seq<String>,
    uid: Seq<char>,
    p: Seq<char>,
)
    ensures
        channel_grants(base, role_ids, uid, Seq::<PermissionOverwrite>::empty(), p) == base.contains(
            p,
        ),
{
    let ows = Seq::<PermissionOverwrite>::empty();
    assert(!exists|u: int| is_first_user_overwrite(ows, uid, u));
}

/// At most one overwrite of `ows` targets the user `uid`.
pub open spec fn at_most_one_user_overwrite(ows: Seq<PermissionOverwrite>, uid: Seq<char>) -> bool {
    forall|i: int, j: int|
        #![trigger ows[i], ows[j]]
        0 <= i < ows.len() && 0 <= j < ows.len() && ows[i].target@ == uid && ows[j].target@
            == uid ==> i == j
}

/// Reordering keeps a single overwrite of the user single.
proof fn lemma_single_user_overwrite_permuted(
    ows1: Seq<PermissionOverwrite>,
    ows2: Seq<PermissionOverwrite>,
    uid: Seq<char>,
)
    requires
        ows1.to_multiset() == ows2.to_multiset(),
        at_most_one_user_overwrite(ows1, uid),
    ensures
        at_most_one_user_overwrite(ows2, uid),
{
    assert forall|i: int, j: int|
        #![trigger ows2[i], ows2[j]]
        0 <= i < ows2.len() && 0 <= j < ows2.len() && ows2[i].target@ == uid && ows2[j].target@
            == uid implies i == j by {
        if i != j {
            let lo = if i < j { i } else { j };
            let hi = if i < j { j } else { i };
            let x = ows2[lo];
            let y = ows2[hi];
            let r2 = ows2.remove(hi);
            assert(r2[lo] == x);
            assert(r2.contains(x));
            assert(ows2.contains(y));
            assert(ows2.to_multiset().count(y) > 0);
            assert(ows1.contains(y));
            let a = choose|a: int| 0 <= a < ows1.len() && ows1[a] == y;
            let r1 = ows1.remove(a);
            assert(r1.to_multiset() == ows1.to_multiset().remove(y));
            assert(r2.to_multiset() == ows2.to_multiset().remove(y));
            assert(r2.to_multiset().count(x) > 0);
            assert(r1.to_multiset().count(x) > 0);
            assert(r1.contains(x));
            let b1 = choose|b: int| 0 <= b < r1.len() && r1[b] == x;
            let b = if b1 < a { b1 } else { b1 + 1 };
            assert(ows1[b] == x);
            assert(ows1[a] == y);
            assert(b != a);
        }
    }
}

/// The role overwrites of `ows1` and `ows2` have the same effect when the
/// two hold the same overwrites.
proof fn lemma_role_overwrites_same_elements(
    ows1: Seq<PermissionOverwrite>,
    ows2: Seq<PermissionOverwrite>,
    t: Set<Seq<char>>,
    p: Seq<char>,
)
    requires
        forall|x: PermissionOverwrite| ows1.contains(x) ==> ows2.contains(x),
    ensures
        roles_deny_upto(ows1, t, ows1.len() as int, p) ==> roles_deny_upto(ows2, t, ows2.len() as int, p),
        roles_allow_upto(ows1, t, ows1.len() as int, p) ==> roles_allow_upto(ows2, t, ows2.len() as int, p),
{
    if roles_deny_upto(ows1, t, ows1.len() as int, p) {
        let k = choose|k: int|
            0 <= k < ows1.len() && targets_role(ows1, t, k) && #[trigger] views(ows1[k].deny@).contains(p);
        assert(ows1.contains(ows1[k]));
        let m = choose|m: int| 0 <= m < ows2.len() && ows2[m] == ows1[k];
        assert(targets_role(ows2, t, m) && views(ows2[m].deny@).contains(p));
    }
    if roles_allow_upto(ows1, t, ows1.len() as int, p) {
        let k = choose|k: int|
            0 <= k < ows1.len() && targets_role(ows1, t, k) && #[trigger] views(ows1[k].allow@).contains(p);
        assert(ows1.contains(ows1[k]));
        let m = choose|m: int| 0 <= m < ows2.len() && ows2[m] == ows1[k];
        assert(targets_role(ows2, t, m) && views(ows2[m].allow@).contains(p));
    }
}

/// With a single overwrite of the user, that overwrite is the first one.
proof fn lemma_single_user_overwrite_first(ows: Seq<PermissionOverwrite>, uid: Seq<char>, k: int)
    requires
        at_most_one_user_overwrite(ows, uid),
        0 <= k < ows.len(),
        ows[k].target@ == uid,
    ensures
        is_first_user_overwrite(ows, uid, k),
{
    assert forall|j: int| 0 <= j < k implies #[trigger] ows[j].target@ != uid by {
        if ows[j].target@ == uid {
            assert(ows[j] == ows[j] && ows[k] == ows[k]);
        }
    }
}

/// The order of a channel's overwrites does not change what they grant:
/// precedence depends on the kind of an overwrite (role or user, deny or
/// allow), never on its place in the list, as long as at most one
/// overwrite targets the user.
pub proof fn lemma_overwrite_order_irrelevant(
    base: Set<Seq<char>>,
    role_ids: Seq<String>,
    uid: Seq<char>,
    ows1: Seq<PermissionOverwrite>,
    ows2: Seq<PermissionOverwrite>,
    p: Seq<char>,
)
    requires
        ows1.to_multiset() == ows2.to_multiset(),
        at_most_one_user_overwrite(ows1, uid),
    ensures
        channel_grants(base, role_ids, uid, ows1, p) == channel_grants(base, role_ids, uid, ows2, p),
{
    lemma_single_user_overwrite_permuted(ows1, ows2, uid);
    assert forall|x: PermissionOverwrite| ows1.contains(x) <==> ows2.contains(x) by {
        vstd::seq_lib::to_multiset_contains(ows1, x);
        vstd::seq_lib::to_multiset_contains(ows2, x);
        assert(ows1.to_multiset().count(x) == ows2.to_multiset().count(x));
    }
    let t = views(role_ids).to_set();
    lemma_role_overwrites_same_elements(ows1, ows2, t, p);
    lemma_role_overwrites_same_elements(ows2, ows1, t, p);
    assert(after_role_overwrites(base, role_ids, ows1, p) == after_role_overwrites(base, role_ids, ows2, p));
    if exists|k: int| is_first_user_overwrite(ows1, uid, k) {
        let k1 = choose|k: int| is_first_user_overwrite(ows1, uid, k);
        assert(ows1.contains(ows1[k1]));
        let k2 = choose|m: int| 0 <= m < ows2.len() && ows2[m] == ows1[k1];
        lemma_single_user_overwrite_first(ows2, uid, k2);
        let c2 = choose|k: int| is_first_user_overwrite(ows2, uid, k);
        lemma_first_user_overwrite_unique(ows2, uid, c2, k2);
    } else if exists|k: int| is_first_user_overwrite(ows2, uid, k) {
        let k2 = choose|k: int| is_first_user_overwrite(ows2, uid, k);
        assert(ows2.contains(ows2[k2]));
        let k1 = choose|m: int| 0 <= m < ows1.len() && ows1[m] == ows2[k2];
        lemma_single_user_overwrite_first(ows1, uid, k1);
    }
}

/// The owner holds every permission.
pub proof fn lemma_owner_holds_everything(
    owner: Seq<char>,
    is_member: bool,
    roles: Seq<Role>,
    m: MemberPermissions,
    p: Seq<char>,
)
    requires
        permissions_outcome(Some(owner), owner, is_member, roles, Ok(m)),
    ensures
        m.grants(p),
{
}

/// A member holds every default permission and every known permission of
/// each of their roles; a non-bypassing member holds nothing else, and
/// nothing outside the vocabulary.
pub proof fn lemma_member_permissions_are_union(
    owner: Seq<char>,
    uid: Seq<char>,
    roles: Seq<Role>,
    m: MemberPermissions,
    p: Seq<char>,
)
    requires
        owner != uid,
        permissions_outcome(Some(owner), uid, true, roles, Ok(m)),
    ensures
        default_permissions_spec().contains(p) ==> m.grants(p),
        is_known(p) && role_grants(roles, p) ==> m.grants(p),
        !m.bypass ==> (m.grants(p) ==> member_grants(roles, p)),
        !m.bypass && m.grants(p) ==> is_known(p),
{
    lemma_defaults_known();
    if !m.bypass {
        assert(m.perm_set().contains(p) == member_grants(roles, p));
    }
}

/// A member with a role that lists `administrator` bypasses everything.
pub proof fn lemma_administrator_bypasses(
    owner: Seq<char>,
    uid: Seq<char>,
    roles: Seq<Role>,
    m: MemberPermissions,
    i: int,
    j: int,
    p: Seq<char>,
)
    requires
        owner != uid,
        permissions_outcome(Some(owner), uid, true, roles, Ok(m)),
        0 <= i < roles.len(),
        0 <= j < roles[i].permissions@.len(),
        roles[i].permissions@[j]@ == "administrator"@,
    ensures
        m.bypass,
        m.grants(p),
{
    assert(all_permissions_spec()[0] == "administrator"@);
    assert(role_grants(roles, "administrator"@));
}

/// A member without roles holds exactly the default permissions.
pub proof fn lemma_plain_member_has_defaults(
    owner: Seq<char>,
    uid: Seq<char>,
    m: MemberPermissions,
    p: Seq<char>,
)
    requires
        owner != uid,
        permissions_outcome(Some(owner), uid, true, Seq::<Role>::empty(), Ok(m)),
    ensures
        !m.bypass,
        m.grants(p) == default_permissions_spec().contains(p),
        m.highest_position == i64::MAX,
{
    let d = default_permissions_spec();
    assert(!d.contains("administrator"@)) by {
        reveal_strlit("administrator");
        reveal_strlit("view_channels");
        reveal_strlit("send_messages");
        reveal_strlit("attach_files");
        reveal_strlit("create_invite");
        reveal_strlit("connect");
        reveal_strlit("speak");
        assert("administrator"@[1] == 'd');
        assert(d[0][1] == 'i');
        assert(d[1][1] == 'e');
        assert(d[2][1] == 't');
        assert(d[3][1] == 'r');
        assert(d[4][1] == 'o');
        assert(d[5][1] == 'p');
        if d.contains("administrator"@) {
            let k = choose|k: int| 0 <= k < d.len() && d[k] == "administrator"@;
            assert(d[k][1] == 'd');
        }
    }
    assert(!role_grants(Seq::<Role>::empty(), p));
    assert(!role_grants(Seq::<Role>::empty(), "administrator"@));
    assert(m.perm_set().contains(p) == member_grants(Seq::<Role>::empty(), p));
}

// ---------------------------------------------------------------------------
// Checks
// ---------------------------------------------------------------------------
/// `perms` when they grant `permission`; otherwise the missing-permission
/// error. An earlier error is passed on unchanged.
pub fn require_permission(
    perms: Result<MemberPermissions, (u16, String)>,
    permission: &str,
) -> (r: Result<MemberPermissions, (u16, String)>)
    ensures
        perms is Err ==> r == perms,
        perms matches Ok(m) ==> if m.grants(permission@) {
            r == perms
        } else {
            r matches Err(e) && is_api_error(e, STATUS_FORBIDDEN, missing_permission_body(permission@))
        },
{
    match perms {
        Err(e) => Err(e),
        Ok(m) => {
            if !m.has(permission) {
                return Err(missing_permission_error(permission));
            }
            Ok(m)
        },
    }
}

/// What the permission computation gives for a user on a channel with
/// overwrites `ows` (see `permissions_outcome` and `channel_grants`).
pub open spec fn channel_permissions_outcome(
    guild_owner: Option<Seq<char>>,
    uid: Seq<char>,
    membership: Option<MemberOf>,
    roles: Seq<Role>,
    ows: Seq<PermissionOverwrite>,
    r: Result<MemberPermissions, (u16, String)>,
) -> bool {
    match r {
        Err(e) => permissions_outcome(guild_owner, uid, membership is Some, roles, Err(e)),
        Ok(m) => exists|base: MemberPermissions|
            permissions_outcome(guild_owner, uid, membership is Some, roles, Ok(base)) && (
            base.bypass ==> m == base) && (!base.bypass ==> (!m.bypass && m.highest_position
                == base.highest_position && m.perm_set() == Set::new(
                |p: Seq<char>|
                    channel_grants(base.perm_set(), membership.unwrap().roles@, uid, ows, p),
            ))),
    }
}

/// The view of an optional membership.
pub open spec fn membership_view(membership: Option<&MemberOf>) -> Option<MemberOf> {
    match membership {
        Some(m) => Some(*m),
        None => None,
    }
}

/// The permissions of `user_id` on `channel`, in a guild owned by
/// `guild_owner`, given the user's membership and roles.
pub fn get_channel_permissions(
    channel: &Channel,
    guild_owner: Option<&String>,
    user_id: &String,
    membership: Option<&MemberOf>,
    roles: &[Role],
) -> (r: Result<MemberPermissions, (u16, String)>)
    ensures
        channel_permissions_outcome(
            owner_view(guild_owner),
            user_id@,
            membership_view(membership),
            roles@,
            channel.permission_overwrites@,
            r,
        ),
{
    match get_member_permissions_with_roles(guild_owner, user_id, membership, roles) {
        Err(e) => Err(e),
        Ok((base, ids)) => {
            let ghost b = base;
            let m = resolve_channel_overwrites(base, &ids, user_id.as_str(), &channel.permission_overwrites);
            proof {
                if !b.bypass {
                    assert(ids@ == membership.unwrap().roles@);
                }
            }
            Ok(m)
        },
    }
}

/// The verdict on sending a message to a channel, from the channel
/// permissions (an error when the sender is not a member): the stable WS
/// error code on rejection.
pub open spec fn channel_send_verdict(
    perms: Result<MemberPermissions, (u16, String)>,
    has_attachments: bool,
) -> Result<(), Seq<char>> {
    match perms {
        Err(_) => Err("not_member"@),
        Ok(m) => if !m.grants("send_messages"@) {
            Err("missing_permission:send_messages"@)
        } else if has_attachments && !m.grants("attach_files"@) {
            Err("missing_permission:attach_files"@)
        } else {
            Ok(())
        },
    }
}

/// The view of a result with a string error.
pub open spec fn code_view<T>(r: Result<T, String>) -> Result<T, Seq<char>> {
    match r {
        Ok(v) => Ok(v),
        Err(e) => Err(e@),
    }
}

/// Whether `sender_id` may post in the guild channel `channel` (`None`
/// when it was not found); the stable WS error code on rejection.
pub fn check_channel_send(
    channel: Option<&Channel>,
    guild_owner: Option<&String>,
    sender_id: &String,
    membership: Option<&MemberOf>,
    roles: &[Role],
    has_attachments: bool,
) -> (r: Result<(), String>)
    ensures
        channel is None ==> code_view(r) == Err::<(), Seq<char>>("channel_not_found"@),
        channel matches Some(c) ==> exists|perms: Result<MemberPermissions, (u16, String)>|
            channel_permissions_outcome(
                owner_view(guild_owner),
                sender_id@,
                membership_view(membership),
                roles@,
                c.permission_overwrites@,
                perms,
            ) && code_view(r) == channel_send_verdict(perms, has_attachments),
{
    let channel = match channel {
        None => {
            return Err(owned("channel_not_found"));
        },
        Some(c) => c,
    };
    let pr = get_channel_permissions(channel, guild_owner, sender_id, membership, roles);
    let ghost g = pr;
    let r: Result<(), String> = match pr {
        Err(_) => Err(owned("not_member")),
        Ok(perms) => {
            if !perms.has("send_messages") {
                Err(owned("missing_permission:send_messages"))
            } else if has_attachments && !perms.has("attach_files") {
                Err(owned("missing_permission:attach_files"))
            } else {
                Ok(())
            }
        },
    };
    assert(code_view(r) == channel_send_verdict(g, has_attachments));
    r
}

/// The verdict on joining a voice channel, from the channel permissions.
pub open spec fn voice_join_verdict(
    perms: Result<MemberPermissions, (u16, String)>,
) -> Result<(), Seq<char>> {
    match perms {
        Err(_) => Err("not_member"@),
        Ok(m) => if !m.grants("connect"@) {
            Err("missing_permission:connect"@)
        } else {
            Ok(())
        },
    }
}

/// Whether `user_id` may join the voice channel `channel` (`None` when it was
/// not found): the channel's guild id on success, the stable WS error code on
/// rejection.
pub fn check_voice_join(
    channel: Option<&Channel>,
    guild_owner: Option<&String>,
    user_id: &String,
    membership: Option<&MemberOf>,
    roles: &[Role],
) -> (r: Result<String, String>)
    ensures
        channel is None ==> (r matches Err(e) && e@ == "channel_not_found"@),
        channel matches Some(c) ==> (c.channel_type != ChannelType::Voice ==> (r matches Err(e)
            && e@ == "not_voice_channel"@)),
        channel matches Some(c) ==> (c.channel_type == ChannelType::Voice ==> exists|
            perms: Result<MemberPermissions, (u16, String)>,
        |
            channel_permissions_outcome(
                owner_view(guild_owner),
                user_id@,
                membership_view(membership),
                roles@,
                c.permission_overwrites@,
                perms,
            ) && match voice_join_verdict(perms) {
                Ok(()) => r matches Ok(g) && g@ == c.guild@,
                Err(code) => r matches Err(e) && e@ == code,
            }),
{
    let channel = match channel {
        None => {
            return Err(owned("channel_not_found"));
        },
        Some(c) => c,
    };
    if channel.channel_type != ChannelType::Voice {
        return Err(owned("not_voice_channel"));
    }
    let pr = get_channel_permissions(channel, guild_owner, user_id, membership, roles);
    let ghost g = pr;
    let perms = match pr {
        Err(_) => {
            return Err(owned("not_member"));
        },
        Ok(p) => p,
    };
    if !perms.has("connect") {
        return Err(owned("missing_permission:connect"));
    }
    Ok(channel.guild.clone())
}

/// The position of the highest role of a member (`None` when not a member),
/// given the roles that their membership names.
pub fn member_highest_position(membership: Option<&MemberOf>, roles: &[Role]) -> (r: Result<
    i64,
    (u16, String),
>)
    ensures
        membership is None ==> (r matches Err(e) && is_api_error(
            e,
            STATUS_NOT_FOUND,
            "User is not a member of this guild"@,
        )),
        membership is Some ==> (r matches Ok(h) && (roles@.len() == 0 ==> h == i64::MAX) && (
        forall|i: int| 0 <= i < roles@.len() ==> h <= #[trigger] roles@[i].position) && (
        roles@.len() > 0 ==> exists|i: int|
            0 <= i < roles@.len() && h == #[trigger] roles@[i].position)),
{
    match membership {
        None => Err((STATUS_NOT_FOUND, owned("User is not a member of this guild"))),
        Some(_) => Ok(highest_role_position(roles)),
    }
}

} // verus!
