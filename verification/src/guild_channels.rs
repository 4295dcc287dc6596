use vstd::prelude::*;

use crate::models::{Channel, ChannelType, MemberOf, PermissionOverwrite};
use crate::permissions::{
    channel_grants, is_known, lemma_role_deny_removes, require_permission, resolve_channel_overwrites,
    roles_allow_upto, targets_role, unknown_permissions,
    unknown_permissions_body, unknown_permissions_error, MemberPermissions, STATUS_BAD_REQUEST,
    STATUS_NOT_FOUND,
};
use crate::roles::{gate, result_view};
use crate::text::{owned, views};

verus! {

/// The channel type that a request names: `Text` or `Voice`.
pub fn parse_channel_type(s: &str) -> (r: Option<ChannelType>)
    ensures
        s@ == "Text"@ ==> r == Some(ChannelType::Text),
        s@ == "Voice"@ ==> r == Some(ChannelType::Voice),
        s@ != "Text"@ && s@ != "Voice"@ ==> r is None,
{
    proof {
        reveal_strlit("Text");
        reveal_strlit("Voice");
        assert("Text"@.len() != "Voice"@.len());
    }
    let t = owned(s);
    if t == owned("Text") {
        Some(ChannelType::Text)
    } else if t == owned("Voice") {
        Some(ChannelType::Voice)
    } else {
        None
    }
}

/// The name under which a channel type is stored.
pub fn channel_type_name(t: &ChannelType) -> (r: String)
    ensures
        *t == ChannelType::Text ==> r@ == "Text"@,
        *t == ChannelType::Voice ==> r@ == "Voice"@,
{
    match t {
        ChannelType::Text => owned("Text"),
        ChannelType::Voice => owned("Voice"),
    }
}

/// Whether `actor` may create or delete channels, or change their
/// overwrites: they must hold `manage_channels`.
pub fn create_channel(actor: Result<MemberPermissions, (u16, String)>) -> (r: Result<
    (),
    (u16, String),
>)
    ensures
        match gate(actor, "manage_channels"@) {
            Err(e) => result_view(r) == Err::<(), (u16, Seq<char>)>(e),
            Ok(_) => r is Ok,
        },
{
    match require_permission(actor, "manage_channels") {
        Err(e) => Err(e),
        Ok(_) => Ok(()),
    }
}

/// Whether `actor` may delete a channel of the guild (`channel_found` false
/// when it is not one): `manage_channels`, then `404`.
pub fn delete_channel(actor: Result<MemberPermissions, (u16, String)>, channel_found: bool) -> (r:
    Result<(), (u16, String)>)
    ensures
        match gate(actor, "manage_channels"@) {
            Err(e) => result_view(r) == Err::<(), (u16, Seq<char>)>(e),
            Ok(_) => if channel_found {
                r is Ok
            } else {
                result_view(r) == Err::<(), (u16, Seq<char>)>(
                    (STATUS_NOT_FOUND, "Channel not found or does not belong to this guild"@),
                )
            },
        },
{
    match require_permission(actor, "manage_channels") {
        Err(e) => {
            return Err(e);
        },
        Ok(_) => {},
    }
    if !channel_found {
        return Err(
            (STATUS_NOT_FOUND, owned("Channel not found or does not belong to this guild")),
        );
    }
    Ok(())
}

/// A channel is visible to a member with guild-level permissions `base`,
/// roles `role_ids` and id `uid` when they hold `view_channels` on it.
pub open spec fn channel_visible(
    base: MemberPermissions,
    role_ids: Seq<String>,
    uid: Seq<char>,
    c: Channel,
) -> bool {
    base.bypass || channel_grants(
        base.perm_set(),
        role_ids,
        uid,
        c.permission_overwrites@,
        "view_channels"@,
    )
}

/// A channel on which an overwrite of one of the member's roles denies
/// `view_channels`, and no overwrite of the member's roles or of the member
/// allows it, is hidden from a member who does not bypass, whatever their
/// guild-level permissions.
pub proof fn lemma_role_deny_hides_channel(
    base: MemberPermissions,
    role_ids: Seq<String>,
    uid: Seq<char>,
    c: Channel,
    k: int,
)
    requires
        !base.bypass,
        0 <= k < c.permission_overwrites@.len(),
        views(role_ids).contains(c.permission_overwrites@[k].target@),
        views(c.permission_overwrites@[k].deny@).contains("view_channels"@),
        forall|j: int|
            0 <= j < c.permission_overwrites@.len() && (views(role_ids).contains(
                #[trigger] c.permission_overwrites@[j].target@,
            ) || c.permission_overwrites@[j].target@ == uid) ==> !views(
                c.permission_overwrites@[j].allow@,
            ).contains("view_channels"@),
    ensures
        !channel_visible(base, role_ids, uid, c),
{
    broadcast use vstd::set::group_set_axioms;

    let ows = c.permission_overwrites@;
    let t = views(role_ids).to_set();
    let p = "view_channels"@;
    assert(t.contains(ows[k].target@));
    assert(targets_role(ows, t, k));
    assert(!roles_allow_upto(ows, t, ows.len() as int, p)) by {
        if roles_allow_upto(ows, t, ows.len() as int, p) {
            let j = choose|j: int|
                0 <= j < ows.len() && targets_role(ows, t, j) && #[trigger] views(ows[j].allow@).contains(p);
            assert(views(role_ids).contains(ows[j].target@));
        }
    }
    lemma_role_deny_removes(base.perm_set(), role_ids, uid, ows, k, p);
}

/// The channels of `channels` that are visible to the member (see
/// `channel_visible`), in order.
pub fn visible_channels(
    base: &MemberPermissions,
    role_ids: &Vec<String>,
    user_id: &String,
    channels: Vec<Channel>,
) -> (r: Vec<Channel>)
    ensures
        r@ == channels@.filter(|c: Channel| channel_visible(*base, role_ids@, user_id@, c)),
{
    let ghost orig = channels@;
    let ghost pred = |c: Channel| channel_visible(*base, role_ids@, user_id@, c);
    let mut rest = channels;
    let mut reversed: Vec<Channel> = Vec::new();
    while rest.len() > 0
        invariant
            rest@ == orig.take(rest@.len() as int),
            rest@.len() <= orig.len(),
            reversed@ == orig.skip(rest@.len() as int).reverse(),
        decreases rest@.len(),
    {
        let ghost n = rest@.len();
        let c = rest.pop().unwrap();
        reversed.push(c);
        proof {
            assert(rest@ =~= orig.take(n - 1));
            assert(reversed@ =~= orig.skip(n - 1).reverse());
        }
    }
    proof {
        assert(orig.skip(0) =~= orig);
    }
    let mut r: Vec<Channel> = Vec::new();
    while reversed.len() > 0
        invariant
            reversed@ == orig.skip(orig.len() - reversed@.len()).reverse(),
            reversed@.len() <= orig.len(),
            r@ == orig.take(orig.len() - reversed@.len()).filter(pred),
            pred == (|c: Channel| channel_visible(*base, role_ids@, user_id@, c)),
        decreases reversed@.len(),
    {
        let ghost n = reversed@.len();
        let ghost k = orig.len() - n;
        let c = reversed.pop().unwrap();
        proof {
            assert(c == orig[k]);
            assert(reversed@ =~= orig.skip(k + 1).reverse());
            assert(orig.take(k + 1) =~= orig.take(k).push(c));
            orig.take(k).lemma_filter_push(c, pred);
        }
        let perms = resolve_channel_overwrites(
            base.duplicate(),
            role_ids,
            user_id.as_str(),
            &c.permission_overwrites,
        );
        if perms.has("view_channels") {
            r.push(c);
        }
    }
    proof {
        assert(orig.take(orig.len() as int) =~= orig);
    }
    r
}

/// Whether the record-id table `table` of an overwrite target (`None` when
/// the target is not a record id) is `role` or `user`.
pub open spec fn valid_target_table(table: Option<String>) -> bool {
    table matches Some(t) && (t@ == "role"@ || t@ == "user"@)
}

/// The body of the refusal of an overwrite target, with the target as given.
pub open spec fn invalid_target_body(target: Seq<char>) -> Seq<char> {
    "{\"error\":\"invalid_target\",\"target\":\""@ + target + "\"}"@
}

/// The permissions outside the vocabulary in the allow and then the deny
/// list of each overwrite, in order.
pub open spec fn overwrites_unknown(ows: Seq<PermissionOverwrite>) -> Seq<Seq<char>>
    decreases ows.len(),
{
    if ows.len() == 0 {
        Seq::empty()
    } else {
        overwrites_unknown(ows.drop_last()) + views(ows.last().allow@).filter(
            |p: Seq<char>| !is_known(p),
        ) + views(ows.last().deny@).filter(|p: Seq<char>| !is_known(p))
    }
}

/// The verdict on replacing the overwrites of a channel with `ows`, whose
/// targets name the record tables `tables` (`None` for a target that is not a
/// record id), by `actor`. In order: `manage_channels`; `400` for the first
/// target that is not a role or a user; `400` listing every permission
/// outside the vocabulary; `404` when the channel is not one of the guild.
pub open spec fn overwrites_update_verdict(
    actor: Result<MemberPermissions, (u16, String)>,
    ows: Seq<PermissionOverwrite>,
    tables: Seq<Option<String>>,
    channel_found: bool,
) -> Result<(), (u16, Seq<char>)> {
    match gate(actor, "manage_channels"@) {
        Err(e) => Err(e),
        Ok(_) => if exists|k: int| 0 <= k < ows.len() && !valid_target_table(#[trigger] tables[k]) {
            let k = choose|k: int|
                0 <= k < ows.len() && !valid_target_table(#[trigger] tables[k]) && forall|j: int|
                    0 <= j < k ==> valid_target_table(#[trigger] tables[j]);
            Err((STATUS_BAD_REQUEST, invalid_target_body(ows[k].target@)))
        } else if overwrites_unknown(ows).len() > 0 {
            Err((STATUS_BAD_REQUEST, unknown_permissions_body(overwrites_unknown(ows))))
        } else if !channel_found {
            Err((STATUS_NOT_FOUND, "Channel not found or does not belong to this guild"@))
        } else {
            Ok(())
        },
    }
}

/// Whether `actor` may replace the overwrites of a channel with `overwrites`
/// (see `overwrites_update_verdict`); `target_tables` gives, for each
/// overwrite, the table that its target names.
pub fn update_channel_permissions(
    actor: Result<MemberPermissions, (u16, String)>,
    overwrites: &Vec<PermissionOverwrite>,
    target_tables: &Vec<Option<String>>,
    channel_found: bool,
) -> (r: Result<(), (u16, String)>)
    requires
        target_tables@.len() == overwrites@.len(),
    ensures
        result_view(r) == overwrites_update_verdict(
            actor,
            overwrites@,
            target_tables@,
            channel_found,
        ),
{
    let ghost a = actor;
    match require_permission(actor, "manage_channels") {
        Err(e) => {
            return Err(e);
        },
        Ok(_) => {},
    }
    let ghost ows = overwrites@;
    let ghost tables = target_tables@;
    let mut unknown: Vec<String> = Vec::new();
    let mut i: usize = 0;
    while i < overwrites.len()
        invariant
            i <= ows.len(),
            ows == overwrites@,
            tables == target_tables@,
            tables.len() == ows.len(),
            gate(a, "manage_channels"@) is Ok,
            a == actor,
            forall|j: int| 0 <= j < i ==> valid_target_table(#[trigger] tables[j]),
            views(unknown@) == overwrites_unknown(ows.take(i as int)),
        decreases ows.len() - i,
    {
        let ow = &overwrites[i];
        let valid = match &target_tables[i] {
            Some(t) => *t == owned("role") || *t == owned("user"),
            None => false,
        };
        if !valid {
            proof {
                assert(!valid_target_table(tables[i as int]));
                assert(exists|k: int|
                    0 <= k < ows.len() && !valid_target_table(#[trigger] tables[k]) && forall|j: int|
                        0 <= j < k ==> valid_target_table(#[trigger] tables[j])) by {
                    assert(0 <= i < ows.len() && !valid_target_table(tables[i as int]) && forall|
                        j: int,
                    | 0 <= j < i ==> valid_target_table(#[trigger] tables[j]));
                }
                let k = choose|k: int|
                    0 <= k < ows.len() && !valid_target_table(#[trigger] tables[k]) && forall|j: int|
                        0 <= j < k ==> valid_target_table(#[trigger] tables[j]);
                if k < i {
                    assert(valid_target_table(tables[k]));
                } else if k > i {
                    assert(valid_target_table(tables[i as int]));
                }
            }
            let mut body = owned("{\"error\":\"invalid_target\",\"target\":\"");
            body.append(ow.target.as_str());
            body.append("\"}");
            return Err((STATUS_BAD_REQUEST, body));
        }
        let a = unknown_permissions(ow.allow.as_slice());
        let d = unknown_permissions(ow.deny.as_slice());
        let ghost before = views(unknown@);
        let mut j: usize = 0;
        while j < a.len()
            invariant
                j <= a@.len(),
                views(unknown@) == before + views(a@.take(j as int)),
            decreases a@.len() - j,
        {
            let ghost u0 = views(unknown@);
            unknown.push(a[j].clone());
            proof {
                assert(views(unknown@) =~= u0.push(a@[j as int]@));
                assert(views(a@.take(j + 1)) =~= views(a@.take(j as int)).push(a@[j as int]@));
                assert(views(unknown@) =~= before + views(a@.take(j + 1)));
            }
            j = j + 1;
        }
        let ghost mid = views(unknown@);
        let mut j: usize = 0;
        while j < d.len()
            invariant
                j <= d@.len(),
                views(unknown@) == mid + views(d@.take(j as int)),
            decreases d@.len() - j,
        {
            let ghost u0 = views(unknown@);
            unknown.push(d[j].clone());
            proof {
                assert(views(unknown@) =~= u0.push(d@[j as int]@));
                assert(views(d@.take(j + 1)) =~= views(d@.take(j as int)).push(d@[j as int]@));
                assert(views(unknown@) =~= mid + views(d@.take(j + 1)));
            }
            j = j + 1;
        }
        proof {
            assert(a@.take(a@.len() as int) =~= a@);
            assert(d@.take(d@.len() as int) =~= d@);
            assert(ows.take(i + 1).drop_last() =~= ows.take(i as int));
            assert(views(unknown@) =~= overwrites_unknown(ows.take(i + 1)));
        }
        i = i + 1;
    }
    proof {
        assert(ows.take(ows.len() as int) =~= ows);
        assert(!exists|k: int| 0 <= k < ows.len() && !valid_target_table(#[trigger] tables[k]));
    }
    if unknown.len() > 0 {
        return Err(unknown_permissions_error(unknown.as_slice()));
    }
    if !channel_found {
        return Err(
            (STATUS_NOT_FOUND, owned("Channel not found or does not belong to this guild")),
        );
    }
    Ok(())
}

/// The ids of the members of the guild of a channel (`channel_found` false
/// when the channel does not exist), given the guild's memberships.
pub fn get_guild_member_ids(channel_found: bool, members: &Vec<MemberOf>) -> (r: Result<
    Vec<String>,
    String,
>)
    ensures
        !channel_found ==> (r matches Err(e) && e@ == "Channel not found"@),
        channel_found ==> (r matches Ok(ids) && ids@.len() == members@.len() && forall|i: int|
            0 <= i < members@.len() ==> #[trigger] ids@[i] == members@[i].user),
{
    if !channel_found {
        return Err(owned("Channel not found"));
    }
    let mut ids: Vec<String> = Vec::new();
    let mut i: usize = 0;
    while i < members.len()
        invariant
            i <= members@.len(),
            ids@.len() == i,
            forall|k: int| 0 <= k < i ==> #[trigger] ids@[k] == members@[k].user,
        decreases members@.len() - i,
    {
        ids.push(members[i].user.clone());
        i = i + 1;
    }
    Ok(ids)
}

/// The body of a channel creation.
#[derive(Debug)]
pub struct CreateChannelRequest {
    pub name: String,
    pub channel_type: String,
    pub category: Option<String>,
}

/// The body of a channel permissions update.
#[derive(Debug)]
pub struct UpdateChannelPermissionsRequest {
    pub permission_overwrites: Vec<PermissionOverwrite>,
}

/// The channel type a creation request names; `400` for any other.
pub fn requested_channel_type(s: &str) -> (r: Result<ChannelType, (u16, String)>)
    ensures
        s@ == "Text"@ ==> r == Ok::<ChannelType, (u16, String)>(ChannelType::Text),
        s@ == "Voice"@ ==> r == Ok::<ChannelType, (u16, String)>(ChannelType::Voice),
        s@ != "Text"@ && s@ != "Voice"@ ==> result_view(r) == Err::<ChannelType, (u16, Seq<char>)>(
            (STATUS_BAD_REQUEST, "channel_type must be 'Text' or 'Voice'"@),
        ),
{
    match parse_channel_type(s) {
        Some(t) => Ok(t),
        None => Err((STATUS_BAD_REQUEST, owned("channel_type must be 'Text' or 'Voice'"))),
    }
}

} // verus!
