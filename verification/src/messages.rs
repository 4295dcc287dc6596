use vstd::prelude::*;

use crate::models::{to_message_with_author, DMChannel, Message, MessageWithAuthor, SimpleUser};
use crate::permissions::{
    missing_permission_body, missing_permission_error, not_member_body, not_member_error,
    MemberPermissions, STATUS_BAD_REQUEST, STATUS_FORBIDDEN, STATUS_NOT_FOUND,
};
use crate::roles::{error_view, result_view};
use crate::text::{contains_string, labelled, owned, views};

verus! {

/// The verdict on `user_id` reading the history of a channel whose id names
/// the table `table`: for a `DMChannel` (`dm`, `None` when not found) the
/// user must be a recipient; for a guild `channel` (`channel_perms`, the
/// user's permissions on it, `None` when not found) the user must hold
/// `view_channels`; any other table is refused (`400`).
pub open spec fn channel_access_verdict(
    table: Seq<char>,
    user_id: Seq<char>,
    dm: Option<DMChannel>,
    channel_perms: Option<Result<MemberPermissions, (u16, String)>>,
) -> Result<(), (u16, Seq<char>)> {
    if table == "DMChannel"@ {
        match dm {
            None => Err((STATUS_NOT_FOUND, "Channel not found"@)),
            Some(d) => if views(d.recipients@).contains(user_id) {
                Ok(())
            } else {
                Err((STATUS_FORBIDDEN, not_member_body()))
            },
        }
    } else if table == "channel"@ {
        match channel_perms {
            None => Err((STATUS_NOT_FOUND, "Channel not found"@)),
            Some(Err(e)) => Err(error_view(e)),
            Some(Ok(m)) => if m.grants("view_channels"@) {
                Ok(())
            } else {
                Err((STATUS_FORBIDDEN, missing_permission_body("view_channels"@)))
            },
        }
    } else {
        Err((STATUS_BAD_REQUEST, "Invalid channel id"@))
    }
}

/// Reading the history of a guild channel needs `view_channels` there: it
/// is allowed only when the caller's channel permissions were found and
/// grant `view_channels`, and channel permissions that do not grant it are
/// refused with `403` missing `view_channels`.
pub proof fn lemma_history_needs_view_channels(
    user_id: Seq<char>,
    dm: Option<DMChannel>,
    channel_perms: Option<Result<MemberPermissions, (u16, String)>>,
)
    ensures
        channel_access_verdict("channel"@, user_id, dm, channel_perms) is Ok ==> (channel_perms
            matches Some(Ok(m)) && m.grants("view_channels"@)),
        (channel_perms matches Some(Ok(m)) && !m.grants("view_channels"@)) ==> channel_access_verdict(
            "channel"@,
            user_id,
            dm,
            channel_perms,
        ) == Err::<(), (u16, Seq<char>)>(
            (STATUS_FORBIDDEN, missing_permission_body("view_channels"@)),
        ),
{
    reveal_strlit("channel");
    reveal_strlit("DMChannel");
    assert("channel"@.len() != "DMChannel"@.len());
}

/// The view of an optional DM channel.
pub open spec fn dm_view(dm: Option<&DMChannel>) -> Option<DMChannel> {
    match dm {
        Some(d) => Some(*d),
        None => None,
    }
}

/// Whether `user_id` may read the history of the channel (see
/// `channel_access_verdict`).
pub fn assert_channel_access(
    table: &str,
    user_id: &String,
    dm: Option<&DMChannel>,
    channel_perms: Option<Result<MemberPermissions, (u16, String)>>,
) -> (r: Result<(), (u16, String)>)
    ensures
        result_view(r) == channel_access_verdict(table@, user_id@, dm_view(dm), channel_perms),
{
    let t = owned(table);
    if t == owned("DMChannel") {
        match dm {
            None => Err((STATUS_NOT_FOUND, owned("Channel not found"))),
            Some(d) => {
                if !contains_string(&d.recipients, user_id) {
                    return Err(not_member_error());
                }
                Ok(())
            },
        }
    } else if t == owned("channel") {
        match channel_perms {
            None => Err((STATUS_NOT_FOUND, owned("Channel not found"))),
            Some(Err(e)) => Err(e),
            Some(Ok(m)) => {
                if !m.has("view_channels") {
                    return Err(missing_permission_error("view_channels"));
                }
                Ok(())
            },
        }
    } else {
        Err((STATUS_BAD_REQUEST, owned("Invalid channel id")))
    }
}

/// The number of messages to fetch for a requested `limit`: at most 100.
pub fn message_limit(limit: u32) -> (r: i64)
    ensures
        r == if limit < 100 {
            limit as int
        } else {
            100
        },
{
    if limit < 100 {
        limit as i64
    } else {
        100
    }
}

/// The messages in chronological order, from the newest-first order in
/// which they are fetched.
pub fn chronological(messages: Vec<Message>) -> (r: Vec<Message>)
    ensures
        r@ == messages@.reverse(),
{
    let ghost orig = messages@;
    let mut rest = messages;
    let mut r: Vec<Message> = Vec::new();
    while rest.len() > 0
        invariant
            rest@ == orig.take(rest@.len() as int),
            rest@.len() <= orig.len(),
            r@ == orig.skip(rest@.len() as int).reverse(),
        decreases rest@.len(),
    {
        let ghost n = rest@.len();
        let m = rest.pop().unwrap();
        r.push(m);
        proof {
            assert(rest@ =~= orig.take(n - 1));
            assert(r@ =~= orig.skip(n - 1).reverse());
        }
    }
    assert(orig.skip(0) =~= orig);
    r
}

/// The number of messages a page holds when the query names none.
pub const DEFAULT_MESSAGE_LIMIT: u32 = 50;

/// The query of a page of messages: at most `limit` of them, older than
/// the message `before` when it is given.
#[derive(Debug)]
pub struct MessagesQuery {
    pub limit: u32,
    pub before: Option<String>,
}

impl MessagesQuery {
    /// The query with `limit` (50 when absent) and `before`.
    pub fn new(limit: Option<u32>, before: Option<String>) -> (r: MessagesQuery)
        ensures
            r.limit == match limit {
                Some(l) => l,
                None => DEFAULT_MESSAGE_LIMIT,
            },
            r.before == before,
    {
        let limit = match limit {
            Some(l) => l,
            None => DEFAULT_MESSAGE_LIMIT,
        };
        MessagesQuery { limit, before }
    }
}

/// A stored message with the profile of its author.
pub open spec fn with_author(m: Message, author: SimpleUser) -> MessageWithAuthor {
    MessageWithAuthor {
        id: m.id,
        channel: m.channel,
        author,
        content: m.content,
        reply_to: m.reply_to,
        attachments: m.attachments,
        edited_at: m.edited_at,
        created_at: m.created_at,
    }
}

/// Each message with the profile of its author (`authors[i]` is the
/// profile found for the author of `messages[i]`, `None` when there is
/// none); `Author not found: <id>` for the first message without one.
pub fn attach_authors(messages: Vec<Message>, authors: Vec<Option<SimpleUser>>) -> (r: Result<
    Vec<MessageWithAuthor>,
    String,
>)
    requires
        messages@.len() == authors@.len(),
    ensures
        match r {
            Ok(v) => (forall|i: int| 0 <= i < authors@.len() ==> (#[trigger] authors@[i]) is Some)
                && v@.len() == messages@.len() && forall|i: int|
                0 <= i < v@.len() ==> #[trigger] v@[i] == with_author(messages@[i], authors@[i]->0),
            Err(e) => exists|i: int|
                0 <= i < authors@.len() && (#[trigger] authors@[i]) is None && (forall|j: int|
                    0 <= j < i ==> (#[trigger] authors@[j]) is Some) && e@ == "Author not found: "@
                    + messages@[i].author@,
        },
{
    let mut k: usize = 0;
    while k < authors.len()
        invariant
            k <= authors@.len(),
            messages@.len() == authors@.len(),
            forall|j: int| 0 <= j < k ==> (#[trigger] authors@[j]) is Some,
        decreases authors@.len() - k,
    {
        if authors[k].is_none() {
            return Err(labelled("Author not found: ", &messages[k].author));
        }
        k = k + 1;
    }
    let ghost om = messages@;
    let ghost oa = authors@;
    let mut messages = messages;
    let mut authors = authors;
    let mut out: Vec<MessageWithAuthor> = Vec::new();
    let n = messages.len();
    let mut i: usize = 0;
    while i < n
        invariant
            i <= n,
            n == om.len(),
            om.len() == oa.len(),
            messages@ == om.skip(i as int),
            authors@ == oa.skip(i as int),
            forall|j: int| 0 <= j < oa.len() ==> (#[trigger] oa[j]) is Some,
            out@.len() == i,
            forall|j: int| 0 <= j < i ==> #[trigger] out@[j] == with_author(om[j], oa[j]->0),
        decreases n - i,
    {
        let m = messages.remove(0);
        let a = authors.remove(0);
        proof {
            assert(m == om[i as int]);
            assert(a == oa[i as int]);
            assert(messages@ =~= om.skip(i + 1));
            assert(authors@ =~= oa.skip(i + 1));
        }
        let author = match a {
            Some(u) => u,
            None => {
                proof {
                    assert(oa[i as int] is Some);
                }
                return Err(String::new());
            },
        };
        out.push(to_message_with_author(m, author));
        i = i + 1;
    }
    Ok(out)
}

} // verus!
