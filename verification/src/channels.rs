use vstd::prelude::*;

use crate::friends::{are_accepted_friends, links};
use crate::models::Friendship;
use crate::permissions::{STATUS_FORBIDDEN, STATUS_NOT_FOUND};
use crate::roles::result_view;
use crate::text::{
    contains_string, join_strings, join_with, lemma_sort_permutation_invariant, owned,
    sort_strings, string_order, views,
};

verus! {

/// The key that identifies the set of participants of a DM channel: their
/// ids in ascending order, separated by commas.
pub open spec fn recipients_key_spec(ids: Seq<Seq<char>>) -> Seq<char> {
    join_with(ids.sort_by(string_order()), ","@)
}

/// The key of the participants `ids` (see `recipients_key_spec`).
pub fn recipients_key(ids: &Vec<String>) -> (r: String)
    ensures
        r@ == recipients_key_spec(views(ids@)),
{
    let sorted = sort_strings(ids);
    join_strings(&sorted, ",")
}

/// The key does not depend on the order of the participants: the same
/// participants always give the same key, so creating a DM channel twice
/// finds the first one.
pub proof fn lemma_recipients_key_order_independent(a: Seq<Seq<char>>, b: Seq<Seq<char>>)
    requires
        a.to_multiset() =~= b.to_multiset(),
    ensures
        recipients_key_spec(a) == recipients_key_spec(b),
{
    lemma_sort_permutation_invariant(a, b);
}

/// `acc` followed by the strings of `items` that neither `acc` nor an
/// earlier item holds, in order.
pub open spec fn append_new(acc: Seq<Seq<char>>, items: Seq<Seq<char>>) -> Seq<Seq<char>>
    decreases items.len(),
{
    if items.len() == 0 {
        acc
    } else {
        let a = append_new(acc, items.drop_last());
        if a.contains(items.last()) {
            a
        } else {
            a.push(items.last())
        }
    }
}

proof fn lemma_append_new_no_duplicates(acc: Seq<Seq<char>>, items: Seq<Seq<char>>)
    requires
        acc.no_duplicates(),
    ensures
        append_new(acc, items).no_duplicates(),
    decreases items.len(),
{
    if items.len() > 0 {
        lemma_append_new_no_duplicates(acc, items.drop_last());
    }
}

proof fn lemma_append_new_contains(acc: Seq<Seq<char>>, items: Seq<Seq<char>>, x: Seq<char>)
    ensures
        append_new(acc, items).contains(x) <==> acc.contains(x) || items.contains(x),
    decreases items.len(),
{
    if items.len() > 0 {
        lemma_append_new_contains(acc, items.drop_last(), x);
        let a = append_new(acc, items.drop_last());
        if items.contains(x) && !items.drop_last().contains(x) {
            let i = choose|i: int| 0 <= i < items.len() && items[i] == x;
            if i < items.len() - 1 {
                assert(items.drop_last()[i] == x);
            }
        }
        if items.drop_last().contains(x) {
            let i = choose|i: int| 0 <= i < items.drop_last().len() && items.drop_last()[i] == x;
            assert(items[i] == x);
        }
        if !a.contains(items.last()) {
            assert(a.push(items.last()).contains(x) <==> a.contains(x) || x == items.last()) by {
                if a.push(items.last()).contains(x) && x != items.last() {
                    let j = choose|j: int| 0 <= j < a.len() + 1 && a.push(items.last())[j] == x;
                    assert(a[j] == x);
                }
                if a.contains(x) {
                    let j = choose|j: int| 0 <= j < a.len() && a[j] == x;
                    assert(a.push(items.last())[j] == x);
                }
                if x == items.last() {
                    assert(a.push(items.last())[a.len() as int] == x);
                }
            }
        }
        assert(items[items.len() - 1] == items.last());
    }
}

/// Two lists without repeats that hold the same strings are permutations
/// of each other.
proof fn lemma_same_elements_same_multiset(a: Seq<Seq<char>>, b: Seq<Seq<char>>)
    requires
        a.no_duplicates(),
        b.no_duplicates(),
        forall|x: Seq<char>| a.contains(x) <==> b.contains(x),
    ensures
        a.to_multiset() =~= b.to_multiset(),
{
    a.lemma_multiset_has_no_duplicates();
    b.lemma_multiset_has_no_duplicates();
    assert forall|x: Seq<char>| a.to_multiset().count(x) == b.to_multiset().count(x) by {
        vstd::seq_lib::to_multiset_contains(a, x);
        vstd::seq_lib::to_multiset_contains(b, x);
        if a.contains(x) {
            assert(a.to_multiset().contains(x));
            assert(b.to_multiset().contains(x));
        }
    }
}

/// Creating a DM channel twice for the same set of recipients, in any order
/// and with any repeats, lists the same participants and so gives the same
/// key: the second creation finds the channel of the first.
pub proof fn lemma_same_recipients_same_key(owner_id: Seq<char>, rs1: Seq<Seq<char>>, rs2: Seq<Seq<char>>)
    requires
        forall|x: Seq<char>| rs1.contains(x) <==> rs2.contains(x),
    ensures
        recipients_key_spec(append_new(seq![owner_id], rs1)) == recipients_key_spec(
            append_new(seq![owner_id], rs2),
        ),
{
    let acc = seq![owner_id];
    let p1 = append_new(acc, rs1);
    let p2 = append_new(acc, rs2);
    assert(acc.no_duplicates());
    lemma_append_new_no_duplicates(acc, rs1);
    lemma_append_new_no_duplicates(acc, rs2);
    assert forall|x: Seq<char>| p1.contains(x) <==> p2.contains(x) by {
        lemma_append_new_contains(acc, rs1, x);
        lemma_append_new_contains(acc, rs2, x);
    }
    lemma_same_elements_same_multiset(p1, p2);
    lemma_recipients_key_order_independent(p1, p2);
}

/// The participants of a DM channel that `owner_id` creates with
/// `recipient_ids`: the owner first, then each recipient not yet listed.
pub fn dm_participants(owner_id: &String, recipient_ids: &Vec<String>) -> (r: Vec<String>)
    ensures
        views(r@) == append_new(seq![owner_id@], views(recipient_ids@)),
        views(r@).no_duplicates(),
{
    let mut all: Vec<String> = Vec::new();
    all.push(owner_id.clone());
    proof {
        assert(views(all@) =~= seq![owner_id@]);
        assert(views(recipient_ids@.take(0)) =~= Seq::<Seq<char>>::empty());
    }
    let mut i: usize = 0;
    while i < recipient_ids.len()
        invariant
            i <= recipient_ids@.len(),
            views(all@) == append_new(seq![owner_id@], views(recipient_ids@.take(i as int))),
        decreases recipient_ids@.len() - i,
    {
        proof {
            assert(views(recipient_ids@.take(i + 1)).drop_last() =~= views(
                recipient_ids@.take(i as int),
            ));
            assert(views(recipient_ids@.take(i + 1)).last() == recipient_ids@[i as int]@);
        }
        if !contains_string(&all, &recipient_ids[i]) {
            let ghost before = views(all@);
            all.push(recipient_ids[i].clone());
            proof {
                assert(views(all@) =~= before.push(recipient_ids@[i as int]@));
            }
        }
        i = i + 1;
    }
    proof {
        assert(recipient_ids@.take(recipient_ids@.len() as int) =~= recipient_ids@);
        lemma_append_new_no_duplicates(seq![owner_id@], views(recipient_ids@));
    }
    all
}

/// Whether `owner_id` may open a DM channel with `participants`, of which
/// `found` exist as users, given the owner's friendships: `404` unless all
/// participants exist, then `403` unless the owner has an accepted
/// friendship with each other participant.
pub fn check_dm_participants(
    owner_id: &String,
    participants: &Vec<String>,
    found: usize,
    owner_friendships: &Vec<Friendship>,
) -> (r: Result<(), (u16, String)>)
    ensures
        found < participants@.len() ==> result_view(r) == Err::<(), (u16, Seq<char>)>(
            (STATUS_NOT_FOUND, "one or more recipients not found"@),
        ),
        found >= participants@.len() ==> if forall|i: int|
            0 <= i < participants@.len() && #[trigger] participants@[i]@ != owner_id@ ==> exists|
                k: int,
            |
                0 <= k < owner_friendships@.len() && links(
                    #[trigger] owner_friendships@[k],
                    owner_id@,
                    participants@[i]@,
                ) && owner_friendships@[k].status@ == "accepted"@ {
            r is Ok
        } else {
            result_view(r) == Err::<(), (u16, Seq<char>)>(
                (STATUS_FORBIDDEN, "you must be friends with all recipients"@),
            )
        },
{
    if found < participants.len() {
        return Err((STATUS_NOT_FOUND, owned("one or more recipients not found")));
    }
    let mut i: usize = 0;
    while i < participants.len()
        invariant
            i <= participants@.len(),
            found >= participants@.len(),
            forall|j: int|
                0 <= j < i && #[trigger] participants@[j]@ != owner_id@ ==> exists|k: int|
                    0 <= k < owner_friendships@.len() && links(
                        #[trigger] owner_friendships@[k],
                        owner_id@,
                        participants@[j]@,
                    ) && owner_friendships@[k].status@ == "accepted"@,
        decreases participants@.len() - i,
    {
        if participants[i] != *owner_id && !are_accepted_friends(
            owner_friendships,
            owner_id,
            &participants[i],
        ) {
            assert(participants@[i as int]@ != owner_id@);
            return Err((STATUS_FORBIDDEN, owned("you must be friends with all recipients")));
        }
        i = i + 1;
    }
    Ok(())
}

/// Whether every participant of a DM channel other than `sender_id` is an
/// accepted friend of the sender, given the sender's friendships.
pub fn dm_send_allowed(
    sender_id: &String,
    recipients: &Vec<String>,
    sender_friendships: &Vec<Friendship>,
) -> (r: bool)
    ensures
        r == forall|i: int|
            0 <= i < recipients@.len() && #[trigger] recipients@[i]@ != sender_id@ ==> exists|
                k: int,
            |
                0 <= k < sender_friendships@.len() && links(
                    #[trigger] sender_friendships@[k],
                    sender_id@,
                    recipients@[i]@,
                ) && sender_friendships@[k].status@ == "accepted"@,
{
    let mut i: usize = 0;
    while i < recipients.len()
        invariant
            i <= recipients@.len(),
            forall|j: int|
                0 <= j < i && #[trigger] recipients@[j]@ != sender_id@ ==> exists|k: int|
                    0 <= k < sender_friendships@.len() && links(
                        #[trigger] sender_friendships@[k],
                        sender_id@,
                        recipients@[j]@,
                    ) && sender_friendships@[k].status@ == "accepted"@,
        decreases recipients@.len() - i,
    {
        if recipients[i] != *sender_id && !are_accepted_friends(
            sender_friendships,
            sender_id,
            &recipients[i],
        ) {
            return false;
        }
        i = i + 1;
    }
    true
}

} // verus!
