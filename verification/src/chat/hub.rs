use vstd::prelude::*;

use crate::chat::registry::Registry;
use crate::chat::types::{presence_frame, PresenceEvent};
use crate::friends::friend_of;
use crate::models::Friendship;
use crate::text::{contains_string, owned, views};

verus! {

/// The voice channel a user is in, and its guild.
#[derive(Debug)]
pub struct VoiceState {
    pub guild_id: String,
    pub channel_id: String,
}

impl VoiceState {
    /// A copy of this state.
    pub fn duplicate(&self) -> (r: VoiceState)
        ensures
            r.guild_id@ == self.guild_id@,
            r.channel_id@ == self.channel_id@,
    {
        VoiceState { guild_id: self.guild_id.clone(), channel_id: self.channel_id.clone() }
    }
}

/// A `voice_state_update` to announce to the members of a guild: the user
/// is now in `channel_id`, or in no channel of that guild when it is `None`.
#[derive(Debug)]
pub struct VoiceBroadcast {
    pub guild_id: String,
    pub channel_id: Option<String>,
}

/// A broadcast by the views of its fields.
pub open spec fn broadcast_view(b: VoiceBroadcast) -> (Seq<char>, Option<Seq<char>>) {
    (
        b.guild_id@,
        match b.channel_id {
            Some(c) => Some(c@),
            None => None,
        },
    )
}

/// The broadcasts that a move to `channel` of `guild` makes, given where the
/// user was before: none when they stay in the same channel; otherwise a
/// leave in the former guild when they change guild, then the join.
pub open spec fn join_broadcasts(prev: Option<VoiceState>, guild: Seq<char>, channel: Seq<char>) -> Seq<
    (Seq<char>, Option<Seq<char>>),
> {
    match prev {
        Some(p) => if p.channel_id@ == channel {
            Seq::empty()
        } else if p.guild_id@ != guild {
            seq![(p.guild_id@, None), (guild, Some(channel))]
        } else {
            seq![(guild, Some(channel))]
        },
        None => seq![(guild, Some(channel))],
    }
}

/// The guild id or the channel id of a voice state.
pub open spec fn voice_field(s: VoiceState, by_guild: bool) -> Seq<char> {
    if by_guild {
        s.guild_id@
    } else {
        s.channel_id@
    }
}

/// The other user of each friendship, seen from `user_id`.
pub open spec fn friend_ids(friendships: Seq<Friendship>, user_id: Seq<char>) -> Seq<Seq<char>> {
    friendships.map_values(
        |f: Friendship|
            if f.user_a@ == user_id {
                f.user_b@
            } else {
                f.user_a@
            },
    )
}

/// The users of a voice-state snapshot.
pub open spec fn state_users(states: Seq<(String, VoiceState)>) -> Seq<Seq<char>> {
    states.map_values(|e: (String, VoiceState)| e.0@)
}

/// The users, their senders and their voice states of the chat server.
/// `S` is the sending half of a user's connection.
#[derive(Debug)]
pub struct ChatHub<S> {
    pub connections: Registry<S>,
    pub voice_states: Registry<VoiceState>,
}

impl<S> ChatHub<S> {
    /// Both tables are well formed.
    pub open spec fn wf(&self) -> bool {
        self.connections.wf() && self.voice_states.wf()
    }

    /// The users who are connected.
    pub open spec fn online(&self) -> Set<Seq<char>> {
        self.connections@.dom()
    }

    /// The voice state of `user_id`, if they are in voice.
    pub open spec fn voice_of(&self, user_id: Seq<char>) -> Option<VoiceState> {
        if self.voice_states@.dom().contains(user_id) {
            Some(self.voice_states@[user_id])
        } else {
            None
        }
    }

    /// A hub with no connection and nobody in voice.
    pub fn new() -> (r: Self)
        ensures
            r.wf(),
            r.connections@ == Map::<Seq<char>, S>::empty(),
            r.voice_states@ == Map::<Seq<char>, VoiceState>::empty(),
    {
        ChatHub { connections: Registry::new(), voice_states: Registry::new() }
    }

    /// Records the connection of `user_id`, replacing an earlier one, which
    /// is given back.
    pub fn register(&mut self, user_id: String, sender: S) -> (r: Option<S>)
        requires
            old(self).wf(),
        ensures
            final(self).wf(),
            final(self).connections@ == old(self).connections@.insert(user_id@, sender),
            final(self).voice_states@ == old(self).voice_states@,
            r is Some <==> old(self).online().contains(user_id@),
    {
        self.connections.insert(user_id, sender)
    }

    /// Forgets the connection of `user_id` and gives it back.
    pub fn disconnect(&mut self, user_id: &String) -> (r: Option<S>)
        requires
            old(self).wf(),
        ensures
            final(self).wf(),
            final(self).connections@ == old(self).connections@.remove(user_id@),
            final(self).voice_states@ == old(self).voice_states@,
            r is Some <==> old(self).online().contains(user_id@),
    {
        self.connections.remove(user_id)
    }

    /// Whether `user_id` is connected.
    pub fn is_online(&self, user_id: &String) -> (r: bool)
        ensures
            r == self.online().contains(user_id@),
    {
        self.connections.contains_key(user_id)
    }

    /// The sender of `user_id`'s connection, to which a frame for them goes.
    pub fn connection(&self, user_id: &String) -> (r: Option<&S>)
        requires
            self.wf(),
        ensures
            match r {
                Some(s) => self.online().contains(user_id@) && *s == self.connections@[user_id@],
                None => !self.online().contains(user_id@),
            },
    {
        self.connections.get(user_id)
    }

    /// Those of `user_ids` who are connected, in order.
    pub fn connected_among(&self, user_ids: &Vec<String>) -> (r: Vec<String>)
        ensures
            views(r@) == views(user_ids@).filter(|u: Seq<char>| self.online().contains(u)),
    {
        let ghost on = self.online();
        let mut r: Vec<String> = Vec::new();
        let mut i: usize = 0;
        while i < user_ids.len()
            invariant
                i <= user_ids@.len(),
                on == self.online(),
                views(r@) == views(user_ids@.take(i as int)).filter(|u: Seq<char>| on.contains(u)),
            decreases user_ids@.len() - i,
        {
            let ghost before = views(user_ids@.take(i as int));
            proof {
                assert(views(user_ids@.take(i + 1)) =~= before.push(user_ids@[i as int]@));
                before.lemma_filter_push(user_ids@[i as int]@, |u: Seq<char>| on.contains(u));
            }
            if self.is_online(&user_ids[i]) {
                r.push(user_ids[i].clone());
                proof {
                    assert(views(r@) =~= before.filter(|u: Seq<char>| on.contains(u)).push(
                        user_ids@[i as int]@,
                    ));
                }
            }
            i = i + 1;
        }
        assert(user_ids@.take(user_ids@.len() as int) =~= user_ids@);
        r
    }

    /// The presence event of `user_id` as their connection stands:
    /// `user_online` when connected, `user_offline` otherwise.
    pub fn presence_event_for(&self, user_id: &String) -> (r: String)
        ensures
            r@ == presence_frame(self.online().contains(user_id@), user_id@),
    {
        let online = self.is_online(user_id);
        PresenceEvent::for_user(online, user_id).to_json()
    }

    /// The presence event of `user_id` going online or offline, and the
    /// friends to send it to: the other user of each of `friendships` (the
    /// accepted friendships of `user_id`) who is connected, in order.
    pub fn broadcast_presence(
        &self,
        user_id: &String,
        online: bool,
        friendships: &Vec<Friendship>,
    ) -> (r: (String, Vec<String>))
        ensures
            r.0@ == presence_frame(online, user_id@),
            views(r.1@) == friend_ids(friendships@, user_id@).filter(
                |u: Seq<char>| self.online().contains(u),
            ),
    {
        let event = PresenceEvent::for_user(online, user_id).to_json();
        let mut friends: Vec<String> = Vec::new();
        let mut i: usize = 0;
        while i < friendships.len()
            invariant
                i <= friendships@.len(),
                views(friends@) == friend_ids(friendships@.take(i as int), user_id@),
            decreases friendships@.len() - i,
        {
            let f = friend_of(&friendships[i], user_id);
            friends.push(f);
            proof {
                assert(friend_ids(friendships@.take(i + 1), user_id@) =~= friend_ids(
                    friendships@.take(i as int),
                    user_id@,
                ).push(views(friends@).last()));
                assert(views(friends@) =~= friend_ids(friendships@.take(i + 1), user_id@));
            }
            i = i + 1;
        }
        assert(friendships@.take(friendships@.len() as int) =~= friendships@);
        (event, self.connected_among(&friends))
    }

    /// Puts `user_id` in `channel_id`, whose validation gave `verdict` (the
    /// channel's guild, or the refusal code). A refusal changes nothing and is
    /// given back. Otherwise the user's voice state becomes that channel and
    /// the broadcasts to make are given back.
    pub fn voice_join(&mut self, user_id: &String, channel_id: &String, verdict: Result<
        String,
        String,
    >) -> (r: Result<Vec<VoiceBroadcast>, String>)
        requires
            old(self).wf(),
        ensures
            final(self).wf(),
            final(self).connections@ == old(self).connections@,
            match verdict {
                Err(code) => r matches Err(c) && c@ == code@ && final(self).voice_states@ == old(self).voice_states@,
                Ok(guild) => r matches Ok(bs) && bs@.map_values(|b: VoiceBroadcast| broadcast_view(b))
                    == join_broadcasts(old(self).voice_of(user_id@), guild@, channel_id@)
                    && final(self).voice_states@.dom() == old(self).voice_states@.dom().insert(
                    user_id@,
                ) && final(self).voice_states@[user_id@].guild_id@ == guild@
                    && final(self).voice_states@[user_id@].channel_id@ == channel_id@ && (forall|
                    u: Seq<char>,
                | u != user_id@ && #[trigger] old(self).voice_states@.dom().contains(u)
                    ==> final(self).voice_states@[u] == old(self).voice_states@[u]),
            },
    {
        let guild_id = match verdict {
            Err(code) => {
                return Err(code);
            },
            Ok(g) => g,
        };
        let ghost before = self.voice_of(user_id@);
        let state = VoiceState { guild_id: guild_id.clone(), channel_id: channel_id.clone() };
        let previous = self.voice_states.insert(user_id.clone(), state);
        let mut out: Vec<VoiceBroadcast> = Vec::new();
        let ghost joined: (Seq<char>, Option<Seq<char>>) = (guild_id@, Some(channel_id@));
        match previous {
            Some(prev) => {
                if prev.channel_id == *channel_id {
                    proof {
                        assert(out@.map_values(|b: VoiceBroadcast| broadcast_view(b)) =~= Seq::<
                            (Seq<char>, Option<Seq<char>>),
                        >::empty());
                    }
                    return Ok(out);
                }
                if prev.guild_id != guild_id {
                    out.push(VoiceBroadcast { guild_id: prev.guild_id, channel_id: None });
                }
            },
            None => {},
        }
        out.push(VoiceBroadcast { guild_id, channel_id: Some(channel_id.clone()) });
        proof {
            let bv = out@.map_values(|b: VoiceBroadcast| broadcast_view(b));
            assert(bv.last() == joined);
            match before {
                Some(p) => {
                    if p.guild_id@ != joined.0 {
                        assert(bv =~= seq![(p.guild_id@, None::<Seq<char>>), joined]);
                    } else {
                        assert(bv =~= seq![joined]);
                    }
                },
                None => {
                    assert(bv =~= seq![joined]);
                },
            }
        }
        Ok(out)
    }

    /// Takes `user_id` out of voice and gives back the guild to announce it
    /// to; `None` when they were in no channel.
    pub fn voice_leave(&mut self, user_id: &String) -> (r: Option<String>)
        requires
            old(self).wf(),
        ensures
            final(self).wf(),
            final(self).connections@ == old(self).connections@,
            final(self).voice_states@ == old(self).voice_states@.remove(user_id@),
            match old(self).voice_of(user_id@) {
                Some(s) => r matches Some(g) && g@ == s.guild_id@,
                None => r is None,
            },
    {
        match self.voice_states.remove(user_id) {
            Some(state) => Some(state.guild_id),
            None => None,
        }
    }

    /// Takes `user_id` out of voice only when their channel is in `guild_id`
    /// (they leave the guild or are kicked from it); whether they were.
    pub fn voice_leave_guild(&mut self, user_id: &String, guild_id: &String) -> (r: bool)
        requires
            old(self).wf(),
        ensures
            final(self).wf(),
            final(self).connections@ == old(self).connections@,
            r == (old(self).voice_of(user_id@) matches Some(s) && s.guild_id@ == guild_id@),
            r ==> final(self).voice_states@ == old(self).voice_states@.remove(user_id@),
            !r ==> final(self).voice_states@ == old(self).voice_states@,
    {
        let matches = match self.voice_states.get(user_id) {
            Some(s) => s.guild_id == *guild_id,
            None => false,
        };
        if matches {
            self.voice_states.remove(user_id);
        }
        matches
    }

    /// The users whose voice state has `id` as guild (`by_guild`) or as
    /// channel.
    fn voice_users_where(&self, id: &String, by_guild: bool) -> (r: Vec<String>)
        requires
            self.wf(),
        ensures
            views(r@).no_duplicates(),
            forall|u: Seq<char>|
                #[trigger] views(r@).contains(u) <==> (self.voice_states@.dom().contains(u)
                    && voice_field(self.voice_states@[u], by_guild) == id@),
    {
        let ghost keys = self.voice_states.key_seq();
        let ghost vals = self.voice_states.value_seq();
        proof {
            self.voice_states.lemma_keys();
        }
        let n = self.voice_states.len();
        let mut r: Vec<String> = Vec::new();
        let mut i: usize = 0;
        while i < n
            invariant
                i <= n,
                n == keys.len(),
                self.wf(),
                keys == self.voice_states.key_seq(),
                vals == self.voice_states.value_seq(),
                keys.no_duplicates(),
                forall|u: Seq<char>|
                    #[trigger] self.voice_states@.dom().contains(u) <==> keys.contains(u),
                forall|j: int|
                    0 <= j < keys.len() ==> #[trigger] self.voice_states@[keys[j]] == vals[j],
                views(r@).no_duplicates(),
                forall|u: Seq<char>|
                    #[trigger] views(r@).contains(u) <==> exists|j: int|
                        0 <= j < i && keys[j] == u && voice_field(vals[j], by_guild) == id@,
            decreases n - i,
        {
            let s = self.voice_states.value_at(i);
            let hit = if by_guild {
                s.guild_id == *id
            } else {
                s.channel_id == *id
            };
            let ghost old_r = views(r@);
            assert(hit == (voice_field(vals[i as int], by_guild) == id@));
            if hit {
                let k = self.voice_states.key_at(i).clone();
                proof {
                    assert(!old_r.contains(keys[i as int])) by {
                        if old_r.contains(keys[i as int]) {
                            let j = choose|j: int|
                                0 <= j < i && keys[j] == keys[i as int] && voice_field(
                                    vals[j],
                                    by_guild,
                                ) == id@;
                            assert(keys[j] == keys[i as int]);
                        }
                    }
                }
                r.push(k);
                proof {
                    assert(views(r@) =~= old_r.push(keys[i as int]));
                    assert forall|u: Seq<char>| #[trigger]
                        views(r@).contains(u) <==> exists|j: int|
                            0 <= j < i + 1 && keys[j] == u && voice_field(vals[j], by_guild)
                                == id@ by {
                        if views(r@).contains(u) && u != keys[i as int] {
                            let t = choose|t: int| 0 <= t < views(r@).len() && views(r@)[t] == u;
                            assert(old_r[t] == u);
                            assert(old_r.contains(u));
                            let j = choose|j: int|
                                0 <= j < i && keys[j] == u && voice_field(vals[j], by_guild) == id@;
                            assert(0 <= j < i + 1 && keys[j] == u && voice_field(vals[j], by_guild)
                                == id@);
                        }
                        if u == keys[i as int] {
                            assert(0 <= i < i + 1 && keys[i as int] == u && voice_field(
                                vals[i as int],
                                by_guild,
                            ) == id@);
                        }
                        if exists|j: int|
                            0 <= j < i + 1 && keys[j] == u && voice_field(vals[j], by_guild) == id@ {
                            let j = choose|j: int|
                                0 <= j < i + 1 && keys[j] == u && voice_field(vals[j], by_guild)
                                    == id@;
                            if j == i {
                                assert(views(r@)[old_r.len() as int] == u);
                            } else {
                                assert(old_r.contains(u));
                                let t = choose|t: int| 0 <= t < old_r.len() && old_r[t] == u;
                                assert(views(r@)[t] == u);
                            }
                        }
                    }
                }
            } else {
                proof {
                    assert forall|u: Seq<char>| #[trigger]
                        views(r@).contains(u) <==> exists|j: int|
                            0 <= j < i + 1 && keys[j] == u && voice_field(vals[j], by_guild)
                                == id@ by {
                        if exists|j: int|
                            0 <= j < i + 1 && keys[j] == u && voice_field(vals[j], by_guild) == id@ {
                            let j = choose|j: int|
                                0 <= j < i + 1 && keys[j] == u && voice_field(vals[j], by_guild)
                                    == id@;
                            assert(j != i);
                        }
                    }
                }
            }
            i = i + 1;
        }
        proof {
            assert forall|u: Seq<char>| #[trigger]
                views(r@).contains(u) <==> (self.voice_states@.dom().contains(u) && voice_field(
                    self.voice_states@[u],
                    by_guild,
                ) == id@) by {
                if self.voice_states@.dom().contains(u) && voice_field(
                    self.voice_states@[u],
                    by_guild,
                ) == id@ {
                    assert(keys.contains(u));
                    let j = choose|j: int| 0 <= j < keys.len() && keys[j] == u;
                    assert(self.voice_states@[keys[j]] == vals[j]);
                }
                if views(r@).contains(u) {
                    let j = choose|j: int|
                        0 <= j < n && keys[j] == u && voice_field(vals[j], by_guild) == id@;
                    assert(self.voice_states@[keys[j]] == vals[j]);
                }
            }
        }
        r
    }

    /// Takes each of `users` out of voice.
    fn remove_voice_users(&mut self, users: &Vec<String>)
        requires
            old(self).wf(),
        ensures
            final(self).wf(),
            final(self).connections@ == old(self).connections@,
            forall|u: Seq<char>|
                #[trigger] final(self).voice_states@.dom().contains(u) <==> (old(self).voice_states@.dom().contains(u) && !views(users@).contains(u)),
            forall|u: Seq<char>|
                #[trigger] final(self).voice_states@.dom().contains(u) ==> final(self).voice_states@[u] == old(self).voice_states@[u],
    {
        let ghost o = self.voice_states@;
        let ghost c = self.connections@;
        let mut k: usize = 0;
        while k < users.len()
            invariant
                k <= users@.len(),
                self.wf(),
                self.connections@ == c,
                forall|u: Seq<char>|
                    #[trigger] self.voice_states@.dom().contains(u) <==> (o.dom().contains(u)
                        && !views(users@).take(k as int).contains(u)),
                forall|u: Seq<char>|
                    #[trigger] self.voice_states@.dom().contains(u) ==> self.voice_states@[u]
                        == o[u],
            decreases users@.len() - k,
        {
            let ghost prev = views(users@).take(k as int);
            self.voice_states.remove(&users[k]);
            proof {
                let next = views(users@).take(k + 1);
                assert(next =~= prev.push(users@[k as int]@));
                assert forall|u: Seq<char>| #[trigger]
                    self.voice_states@.dom().contains(u) <==> (o.dom().contains(u)
                        && !next.contains(u)) by {
                    if next.contains(u) && u != users@[k as int]@ {
                        let t = choose|t: int| 0 <= t < next.len() && next[t] == u;
                        assert(prev[t] == u);
                    }
                    if prev.contains(u) {
                        let t = choose|t: int| 0 <= t < prev.len() && prev[t] == u;
                        assert(next[t] == u);
                    }
                    if u == users@[k as int]@ {
                        assert(next[k as int] == u);
                    }
                }
            }
            k = k + 1;
        }
        assert(views(users@).take(users@.len() as int) =~= views(users@));
    }

    /// Takes everyone out of the voice channel `channel_id` (it was
    /// deleted) and gives back who was in it, each once.
    pub fn clear_channel_voice_states(&mut self, channel_id: &String) -> (r: Vec<String>)
        requires
            old(self).wf(),
        ensures
            final(self).wf(),
            final(self).connections@ == old(self).connections@,
            views(r@).no_duplicates(),
            forall|u: Seq<char>|
                #[trigger] views(r@).contains(u) <==> (old(self).voice_states@.dom().contains(u)
                    && old(self).voice_states@[u].channel_id@ == channel_id@),
            forall|u: Seq<char>|
                #[trigger] final(self).voice_states@.dom().contains(u) <==> (old(self).voice_states@.dom().contains(u) && old(self).voice_states@[u].channel_id@
                    != channel_id@),
            forall|u: Seq<char>|
                #[trigger] final(self).voice_states@.dom().contains(u) ==> final(self).voice_states@[u] == old(self).voice_states@[u],
    {
        let users = self.voice_users_where(channel_id, false);
        self.remove_voice_users(&users);
        users
    }

    /// Takes everyone in a channel of `guild_id` out of voice (the guild was
    /// deleted).
    pub fn clear_guild_voice_states(&mut self, guild_id: &String)
        requires
            old(self).wf(),
        ensures
            final(self).wf(),
            final(self).connections@ == old(self).connections@,
            forall|u: Seq<char>|
                #[trigger] final(self).voice_states@.dom().contains(u) <==> (old(self).voice_states@.dom().contains(u) && old(self).voice_states@[u].guild_id@
                    != guild_id@),
            forall|u: Seq<char>|
                #[trigger] final(self).voice_states@.dom().contains(u) ==> final(self).voice_states@[u] == old(self).voice_states@[u],
    {
        let users = self.voice_users_where(guild_id, true);
        self.remove_voice_users(&users);
    }

    /// The voice states of the users in a channel of one of `guild_ids`,
    /// each user once, with a copy of their state.
    pub fn voice_states_in_guilds(&self, guild_ids: &Vec<String>) -> (r: Vec<(String, VoiceState)>)
        requires
            self.wf(),
        ensures
            state_users(r@).no_duplicates(),
            forall|u: Seq<char>|
                #[trigger] state_users(r@).contains(u) <==> (
                self.voice_states@.dom().contains(u) && views(guild_ids@).contains(
                    self.voice_states@[u].guild_id@,
                )),
            forall|i: int|
                0 <= i < r@.len() ==> (#[trigger] r@[i]).1.guild_id@ == self.voice_states@[r@[
                    i
                ].0@].guild_id@ && r@[i].1.channel_id@ == self.voice_states@[r@[i].0@].channel_id@,
    {
        let ghost keys = self.voice_states.key_seq();
        let ghost vals = self.voice_states.value_seq();
        proof {
            self.voice_states.lemma_keys();
        }
        let n = self.voice_states.len();
        let mut r: Vec<(String, VoiceState)> = Vec::new();
        let mut i: usize = 0;
        while i < n
            invariant
                i <= n,
                n == keys.len(),
                self.wf(),
                keys == self.voice_states.key_seq(),
                vals == self.voice_states.value_seq(),
                keys.no_duplicates(),
                forall|u: Seq<char>|
                    #[trigger] self.voice_states@.dom().contains(u) <==> keys.contains(u),
                forall|j: int|
                    0 <= j < keys.len() ==> #[trigger] self.voice_states@[keys[j]] == vals[j],
                state_users(r@).no_duplicates(),
                forall|u: Seq<char>|
                    #[trigger] state_users(r@).contains(u)
                        <==> exists|j: int|
                        0 <= j < i && keys[j] == u && views(guild_ids@).contains(vals[j].guild_id@),
                forall|t: int|
                    0 <= t < r@.len() ==> (#[trigger] r@[t]).1.guild_id@ == self.voice_states@[r@[
                        t
                    ].0@].guild_id@ && r@[t].1.channel_id@ == self.voice_states@[r@[
                        t
                    ].0@].channel_id@,
            decreases n - i,
        {
            let s = self.voice_states.value_at(i);
            let ghost old_k = state_users(r@);
            let ghost old_r = r@;
            let inside = contains_string(guild_ids, &s.guild_id);
            assert(inside == views(guild_ids@).contains(vals[i as int].guild_id@));
            if inside {
                let k = self.voice_states.key_at(i).clone();
                let copy = s.duplicate();
                proof {
                    assert(!old_k.contains(keys[i as int])) by {
                        if old_k.contains(keys[i as int]) {
                            let j = choose|j: int|
                                0 <= j < i && keys[j] == keys[i as int] && views(
                                    guild_ids@,
                                ).contains(vals[j].guild_id@);
                            assert(keys[j] == keys[i as int]);
                        }
                    }
                }
                r.push((k, copy));
                proof {
                    let nk = state_users(r@);
                    assert(nk =~= old_k.push(keys[i as int]));
                    assert forall|t: int| 0 <= t < r@.len() implies (#[trigger] r@[t]).1.guild_id@
                        == self.voice_states@[r@[t].0@].guild_id@ && r@[t].1.channel_id@
                        == self.voice_states@[r@[t].0@].channel_id@ by {
                        if t < old_r.len() {
                            assert(r@[t] == old_r[t]);
                        } else {
                            assert(self.voice_states@[keys[i as int]] == vals[i as int]);
                        }
                    }
                    assert forall|u: Seq<char>| #[trigger]
                        nk.contains(u) <==> exists|j: int|
                            0 <= j < i + 1 && keys[j] == u && views(guild_ids@).contains(
                                vals[j].guild_id@,
                            ) by {
                        if nk.contains(u) && u != keys[i as int] {
                            let t = choose|t: int| 0 <= t < nk.len() && nk[t] == u;
                            assert(old_k[t] == u);
                            assert(old_k.contains(u));
                            let j = choose|j: int|
                                0 <= j < i && keys[j] == u && views(guild_ids@).contains(
                                    vals[j].guild_id@,
                                );
                            assert(0 <= j < i + 1 && keys[j] == u && views(guild_ids@).contains(
                                vals[j].guild_id@,
                            ));
                        }
                        if u == keys[i as int] {
                            assert(0 <= i < i + 1 && keys[i as int] == u && views(
                                guild_ids@,
                            ).contains(vals[i as int].guild_id@));
                        }
                        if exists|j: int|
                            0 <= j < i + 1 && keys[j] == u && views(guild_ids@).contains(
                                vals[j].guild_id@,
                            ) {
                            let j = choose|j: int|
                                0 <= j < i + 1 && keys[j] == u && views(guild_ids@).contains(
                                    vals[j].guild_id@,
                                );
                            if j == i {
                                assert(nk[old_k.len() as int] == u);
                            } else {
                                assert(old_k.contains(u));
                                let t = choose|t: int| 0 <= t < old_k.len() && old_k[t] == u;
                                assert(nk[t] == u);
                            }
                        }
                    }
                }
            } else {
                proof {
                    assert forall|u: Seq<char>| #[trigger]
                        old_k.contains(u) <==> exists|j: int|
                            0 <= j < i + 1 && keys[j] == u && views(guild_ids@).contains(
                                vals[j].guild_id@,
                            ) by {
                        if exists|j: int|
                            0 <= j < i + 1 && keys[j] == u && views(guild_ids@).contains(
                                vals[j].guild_id@,
                            ) {
                            let j = choose|j: int|
                                0 <= j < i + 1 && keys[j] == u && views(guild_ids@).contains(
                                    vals[j].guild_id@,
                                );
                            assert(j != i);
                        }
                    }
                }
            }
            i = i + 1;
        }
        proof {
            let nk = state_users(r@);
            assert forall|u: Seq<char>| #[trigger]
                nk.contains(u) <==> (self.voice_states@.dom().contains(u) && views(
                    guild_ids@,
                ).contains(self.voice_states@[u].guild_id@)) by {
                if self.voice_states@.dom().contains(u) && views(guild_ids@).contains(
                    self.voice_states@[u].guild_id@,
                ) {
                    assert(keys.contains(u));
                    let j = choose|j: int| 0 <= j < keys.len() && keys[j] == u;
                    assert(self.voice_states@[keys[j]] == vals[j]);
                }
                if nk.contains(u) {
                    let j = choose|j: int|
                        0 <= j < n && keys[j] == u && views(guild_ids@).contains(
                            vals[j].guild_id@,
                        );
                    assert(self.voice_states@[keys[j]] == vals[j]);
                }
            }
        }
        r
    }
}

// ---------------------------------------------------------------------------
// Laws
// ---------------------------------------------------------------------------
/// A user's presence event reads `user_online` once their connection is
/// registered, and `user_offline` once they have disconnected.
pub proof fn lemma_presence_follows_connection<S>(
    before: ChatHub<S>,
    registered: ChatHub<S>,
    disconnected: ChatHub<S>,
    user_id: Seq<char>,
    sender: S,
)
    requires
        registered.connections@ == before.connections@.insert(user_id, sender),
        disconnected.connections@ == registered.connections@.remove(user_id),
    ensures
        presence_frame(registered.online().contains(user_id), user_id) == presence_frame(
            true,
            user_id,
        ),
        presence_frame(disconnected.online().contains(user_id), user_id) == presence_frame(
            false,
            user_id,
        ),
{
}

/// Joining a voice channel and then leaving voice takes the user out of
/// voice and leaves everyone else's voice state as it was before the join.
pub proof fn lemma_join_then_leave(
    before: Map<Seq<char>, VoiceState>,
    joined: Map<Seq<char>, VoiceState>,
    left: Map<Seq<char>, VoiceState>,
    user_id: Seq<char>,
)
    requires
        joined.dom() == before.dom().insert(user_id),
        forall|u: Seq<char>|
            u != user_id && #[trigger] before.dom().contains(u) ==> joined[u] == before[u],
        left == joined.remove(user_id),
    ensures
        left == before.remove(user_id),
{
    assert(left =~= before.remove(user_id));
}

/// Joining the channel one is already in announces nothing; any other join
/// ends with the announcement of the new channel, preceded by leaving the
/// former guild exactly when the guild changes.
pub proof fn lemma_join_announcements(prev: Option<VoiceState>, guild: Seq<char>, channel: Seq<char>)
    ensures
        prev matches Some(p) && p.channel_id@ == channel ==> join_broadcasts(
            prev,
            guild,
            channel,
        ).len() == 0,
        !(prev matches Some(p) && p.channel_id@ == channel) ==> join_broadcasts(
            prev,
            guild,
            channel,
        ).last() == (guild, Some(channel)),
        !(prev matches Some(p) && p.channel_id@ == channel) ==> (join_broadcasts(
            prev,
            guild,
            channel,
        ).len() == 2 <==> (prev matches Some(p) && p.guild_id@ != guild)),
{
}

} // verus!
