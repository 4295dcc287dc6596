use vstd::prelude::*;

use crate::models::{Friendship, FriendshipWithUsers, SimpleUser, User};
use crate::permissions::{
    STATUS_BAD_REQUEST, STATUS_FORBIDDEN, STATUS_INTERNAL_SERVER_ERROR, STATUS_NOT_FOUND,
};
use crate::roles::result_view;
use crate::text::{labelled, owned};

verus! {

/// Whether `f` links `a` and `b`, in either direction.
pub open spec fn links(f: Friendship, a: Seq<char>, b: Seq<char>) -> bool {
    (f.user_a@ == a && f.user_b@ == b) || (f.user_a@ == b && f.user_b@ == a)
}

/// Whether `user_id` is one of the two users of `f`.
pub open spec fn involves(f: Friendship, user_id: Seq<char>) -> bool {
    f.user_a@ == user_id || f.user_b@ == user_id
}

/// The friendship that a friend request creates: from `user_a` (the
/// sender) to `user_b` (the recipient), with its status.
#[derive(Debug)]
pub struct NewFriendship {
    pub user_a: String,
    pub user_b: String,
    pub status: String,
}

/// A friend request from `user_id` to the user found by name (`None` when
/// there is none), given an existing friendship between them: `404`
/// without the target; `500` when the target has no id; `400` when they
/// are already friends, when a request is pending, or for any other
/// status; otherwise the pending friendship from `user_id` to the target,
/// to create.
pub fn add_friend(user_id: &String, target: Option<&User>, existing: Option<&Friendship>) -> (r:
    Result<NewFriendship, (u16, String)>)
    ensures
        target is None ==> result_view(r) == Err::<NewFriendship, (u16, Seq<char>)>(
            (STATUS_NOT_FOUND, "Utilisateur cible non trouvé."@),
        ),
        target matches Some(t) ==> match t.id {
            None => result_view(r) == Err::<NewFriendship, (u16, Seq<char>)>(
                (STATUS_INTERNAL_SERVER_ERROR, "L'utilisateur cible n'a pas d'ID."@),
            ),
            Some(target_id) => match existing {
                None => r matches Ok(n) && n.user_a@ == user_id@ && n.user_b@ == target_id@
                    && n.status@ == "pending"@,
                Some(f) => result_view(r) == Err::<NewFriendship, (u16, Seq<char>)>(
                    (
                        STATUS_BAD_REQUEST,
                        if f.status@ == "accepted"@ {
                            "Vous êtes déjà amis avec cet utilisateur."@
                        } else if f.status@ == "pending"@ {
                            "Une demande d'amitié est déjà en attente."@
                        } else {
                            "Statut d'amitié inconnu."@
                        },
                    ),
                ),
            },
        },
{
    let target = match target {
        None => {
            return Err((STATUS_NOT_FOUND, owned("Utilisateur cible non trouvé.")));
        },
        Some(t) => t,
    };
    let target_id = match &target.id {
        None => {
            return Err((STATUS_INTERNAL_SERVER_ERROR, owned("L'utilisateur cible n'a pas d'ID.")));
        },
        Some(id) => id,
    };
    match existing {
        None => Ok(
            NewFriendship {
                user_a: user_id.clone(),
                user_b: target_id.clone(),
                status: owned("pending"),
            },
        ),
        Some(f) => {
            if f.status == owned("accepted") {
                Err((STATUS_BAD_REQUEST, owned("Vous êtes déjà amis avec cet utilisateur.")))
            } else if f.status == owned("pending") {
                Err((STATUS_BAD_REQUEST, owned("Une demande d'amitié est déjà en attente.")))
            } else {
                Err((STATUS_BAD_REQUEST, owned("Statut d'amitié inconnu.")))
            }
        },
    }
}

/// The status that an answer to a friend request sets: `accept` gives
/// `accepted`, `reject` gives `rejected`.
pub open spec fn answer_status(action: Seq<char>) -> Option<Seq<char>> {
    if action == "accept"@ {
        Some("accepted"@)
    } else if action == "reject"@ {
        Some("rejected"@)
    } else {
        None
    }
}

/// The new status of the friendship `friendship` (`None` when not found)
/// when `user_id` answers it with `action`. In order: `400` for an action
/// other than `accept` or `reject`, `404` without the friendship, `403` for a
/// user not involved in it, `400` unless it is pending.
pub fn update_friend_request(user_id: &String, friendship: Option<&Friendship>, action: &str) -> (r:
    Result<String, (u16, String)>)
    ensures
        answer_status(action@) is None ==> result_view(r) == Err::<String, (u16, Seq<char>)>(
            (STATUS_BAD_REQUEST, "Statut invalide. Utilisez 'accept' ou 'reject'."@),
        ),
        answer_status(action@) matches Some(st) ==> match friendship {
            None => result_view(r) == Err::<String, (u16, Seq<char>)>(
                (STATUS_NOT_FOUND, "Aucune demande d'amitié trouvée."@),
            ),
            Some(f) => if !involves(*f, user_id@) {
                result_view(r) == Err::<String, (u16, Seq<char>)>(
                    (STATUS_FORBIDDEN, "Vous n'êtes pas impliqué dans cette demande d'amitié."@),
                )
            } else if f.status@ != "pending"@ {
                result_view(r) == Err::<String, (u16, Seq<char>)>(
                    (STATUS_BAD_REQUEST, "Cette demande d'amitié n'est pas en attente."@),
                )
            } else {
                r matches Ok(s) && s@ == st
            },
        },
{
    let a = owned(action);
    let new_status = if a == owned("accept") {
        owned("accepted")
    } else if a == owned("reject") {
        owned("rejected")
    } else {
        return Err(
            (STATUS_BAD_REQUEST, owned("Statut invalide. Utilisez 'accept' ou 'reject'.")),
        );
    };
    let f = match friendship {
        None => {
            return Err((STATUS_NOT_FOUND, owned("Aucune demande d'amitié trouvée.")));
        },
        Some(f) => f,
    };
    if f.user_a != *user_id && f.user_b != *user_id {
        return Err(
            (STATUS_FORBIDDEN, owned("Vous n'êtes pas impliqué dans cette demande d'amitié.")),
        );
    }
    if f.status != owned("pending") {
        return Err((STATUS_BAD_REQUEST, owned("Cette demande d'amitié n'est pas en attente.")));
    }
    Ok(new_status)
}

/// Whether `user_id` may delete the friendship `friendship` (`None` when not
/// found): `404` without it, `403` for a user not involved in it.
pub fn remove_friend(user_id: &String, friendship: Option<&Friendship>) -> (r: Result<
    (),
    (u16, String),
>)
    ensures
        friendship is None ==> result_view(r) == Err::<(), (u16, Seq<char>)>(
            (STATUS_NOT_FOUND, "Amitié introuvable."@),
        ),
        friendship matches Some(f) ==> if involves(*f, user_id@) {
            r is Ok
        } else {
            result_view(r) == Err::<(), (u16, Seq<char>)>(
                (STATUS_FORBIDDEN, "Vous n'êtes pas impliqué dans cette amitié."@),
            )
        },
{
    let f = match friendship {
        None => {
            return Err((STATUS_NOT_FOUND, owned("Amitié introuvable.")));
        },
        Some(f) => f,
    };
    if f.user_a != *user_id && f.user_b != *user_id {
        return Err((STATUS_FORBIDDEN, owned("Vous n'êtes pas impliqué dans cette amitié.")));
    }
    Ok(())
}

/// Whether `friendships` hold an accepted friendship between `a` and `b`.
pub fn are_accepted_friends(friendships: &Vec<Friendship>, a: &String, b: &String) -> (r: bool)
    ensures
        r == exists|i: int|
            0 <= i < friendships@.len() && links(#[trigger] friendships@[i], a@, b@)
                && friendships@[i].status@ == "accepted"@,
{
    let accepted = owned("accepted");
    let mut i: usize = 0;
    while i < friendships.len()
        invariant
            i <= friendships@.len(),
            accepted@ == "accepted"@,
            forall|k: int|
                0 <= k < i ==> !(links(#[trigger] friendships@[k], a@, b@)
                    && friendships@[k].status@ == "accepted"@),
        decreases friendships@.len() - i,
    {
        let f = &friendships[i];
        if ((f.user_a == *a && f.user_b == *b) || (f.user_a == *b && f.user_b == *a)) && f.status
            == accepted {
            return true;
        }
        i = i + 1;
    }
    false
}

/// The other user of the friendship `f`, seen from `user_id`.
pub fn friend_of(f: &Friendship, user_id: &String) -> (r: String)
    ensures
        f.user_a@ == user_id@ ==> r@ == f.user_b@,
        f.user_a@ != user_id@ ==> r@ == f.user_a@,
{
    if f.user_a == *user_id {
        f.user_b.clone()
    } else {
        f.user_a.clone()
    }
}

/// A friendship with the profiles of both its users.
pub open spec fn friendship_with(f: Friendship, a: SimpleUser, b: SimpleUser) -> FriendshipWithUsers {
    FriendshipWithUsers { id: f.id, in_user: a, out_user: b, status: f.status, created_at: f.created_at }
}

/// The first user of `f` whose profile is missing: its first user, then its
/// second.
pub open spec fn missing_user(f: Friendship, a: Option<SimpleUser>) -> Seq<char> {
    if a is None {
        f.user_a@
    } else {
        f.user_b@
    }
}

/// Each friendship with the profiles of its two users (`users_a[i]` and
/// `users_b[i]` are the profiles found for the users of `friendships[i]`,
/// `None` when there is none); `User not found: <id>` for the first missing
/// profile, in order.
pub fn enrich_friendships(
    friendships: Vec<Friendship>,
    users_a: Vec<Option<SimpleUser>>,
    users_b: Vec<Option<SimpleUser>>,
) -> (r: Result<Vec<FriendshipWithUsers>, String>)
    requires
        friendships@.len() == users_a@.len(),
        friendships@.len() == users_b@.len(),
    ensures
        match r {
            Ok(v) => (forall|i: int|
                0 <= i < users_a@.len() ==> (#[trigger] users_a@[i]) is Some && users_b@[i] is Some)
                && v@.len() == friendships@.len() && forall|i: int|
                0 <= i < v@.len() ==> #[trigger] v@[i] == friendship_with(
                    friendships@[i],
                    users_a@[i]->0,
                    users_b@[i]->0,
                ),
            Err(e) => exists|i: int|
                0 <= i < users_a@.len() && ((#[trigger] users_a@[i]) is None || users_b@[i] is None)
                    && (forall|j: int|
                    0 <= j < i ==> (#[trigger] users_a@[j]) is Some && users_b@[j] is Some) && e@
                    == "User not found: "@ + missing_user(friendships@[i], users_a@[i]),
        },
{
    let mut k: usize = 0;
    while k < users_a.len()
        invariant
            k <= users_a@.len(),
            friendships@.len() == users_a@.len(),
            friendships@.len() == users_b@.len(),
            forall|j: int| 0 <= j < k ==> (#[trigger] users_a@[j]) is Some && users_b@[j] is Some,
        decreases users_a@.len() - k,
    {
        if users_a[k].is_none() {
            return Err(labelled("User not found: ", &friendships[k].user_a));
        }
        if users_b[k].is_none() {
            return Err(labelled("User not found: ", &friendships[k].user_b));
        }
        k = k + 1;
    }
    let ghost of = friendships@;
    let ghost oa = users_a@;
    let ghost ob = users_b@;
    let mut friendships = friendships;
    let mut users_a = users_a;
    let mut users_b = users_b;
    let mut out: Vec<FriendshipWithUsers> = Vec::new();
    let n = friendships.len();
    let mut i: usize = 0;
    while i < n
        invariant
            i <= n,
            n == of.len(),
            of.len() == oa.len(),
            of.len() == ob.len(),
            friendships@ == of.skip(i as int),
            users_a@ == oa.skip(i as int),
            users_b@ == ob.skip(i as int),
            forall|j: int| 0 <= j < oa.len() ==> (#[trigger] oa[j]) is Some && ob[j] is Some,
            out@.len() == i,
            forall|j: int|
                0 <= j < i ==> #[trigger] out@[j] == friendship_with(of[j], oa[j]->0, ob[j]->0),
        decreases n - i,
    {
        let f = friendships.remove(0);
        let a = users_a.remove(0);
        let b = users_b.remove(0);
        proof {
            assert(f == of[i as int]);
            assert(a == oa[i as int]);
            assert(b == ob[i as int]);
            assert(friendships@ =~= of.skip(i + 1));
            assert(users_a@ =~= oa.skip(i + 1));
            assert(users_b@ =~= ob.skip(i + 1));
        }
        let (in_user, out_user) = match (a, b) {
            (Some(x), Some(y)) => (x, y),
            _ => {
                proof {
                    assert(oa[i as int] is Some && ob[i as int] is Some);
                }
                return Err(String::new());
            },
        };
        out.push(
            FriendshipWithUsers { id: f.id, in_user, out_user, status: f.status, created_at: f.created_at },
        );
        i = i + 1;
    }
    Ok(out)
}

} // verus!
