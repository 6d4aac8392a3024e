//! The reconciliation actor's state and decisions: control requests against
//! the durable aggregate, and snapshots against the matches being notified.
//! The runner around it performs what a decision asks for (sending,
//! editing, writing the store file) and hands the results back.

use std::collections::HashMap;
use vstd::prelude::*;
use crate::snapshot::Snapshot;
use crate::store::{decoded, empty_record, packed, SaveData};
use crate::token::{fresh_token, parse_token, ulid_value};

verus! {

broadcast use vstd::std_specs::hash::group_hash_axioms;

/// A notification that was posted: its channel and its message.
#[derive(Clone, Copy, Debug, PartialEq, Eq, Structural)]
pub struct MessageRef {
    pub channel: u64,
    pub message: u64,
}

/// The match currently notified for one game account.
#[derive(Debug)]
pub struct GamePosts {
    pub match_id: u64,
    pub messages: Vec<MessageRef>,
}

/// A control request from the command layer.
#[derive(Clone, Copy, Debug, PartialEq, Eq, Structural)]
pub enum BotRequest {
    RegisterUser { user: u64, steam_id: u64 },
    BindChannel { channel: u64 },
    AddTrack { user: u64, channel: u64 },
    RemoveTrack { user: u64, channel: u64 },
}

/// The answer to a control request.
#[derive(Clone, Copy, Debug, PartialEq, Eq, Structural)]
pub enum Reply {
    /// The token issued by a registration.
    Token(u128),
    Done,
    /// The channel is not bound.
    Refused,
}

/// A reply, and whether the aggregate changed so that the store file must be
/// written before replying.
#[derive(Clone, Copy, Debug, PartialEq, Eq, Structural)]
pub struct Outcome {
    pub reply: Reply,
    pub persist: bool,
}

/// What a snapshot asks of the notification sink.
#[derive(Debug)]
pub enum Plan {
    /// Nothing to send.
    Ignore,
    /// Refresh each of these notifications of the match being followed.
    Edit { match_id: u64, messages: Vec<MessageRef> },
    /// Post one notification per channel for a new match, then hand the
    /// posted ones to [`Bot::record_match`].
    Create { steam_id: u64, match_id: u64, channels: Vec<u64> },
}

/// Sole owner of tracking state: the durable aggregate and, per game
/// account, the match being notified.
pub struct Bot {
    save: SaveData,
    games: HashMap<u64, GamePosts>,
}

fn copy_refs(v: &Vec<MessageRef>) -> (r: Vec<MessageRef>)
    ensures
        r@ == v@,
{
    let mut r: Vec<MessageRef> = Vec::new();
    let mut i: usize = 0;
    while i < v.len()
        invariant
            i <= v.len(),
            r@ == v@.take(i as int),
        decreases v.len() - i,
    {
        r.push(v[i]);
        i = i + 1;
        assert(r@ =~= v@.take(i as int));
    }
    assert(v@.take(i as int) =~= v@);
    r
}

impl Bot {
    pub closed spec fn wf(&self) -> bool {
        self.save.wf()
    }

    /// The durable aggregate.
    pub closed spec fn data(&self) -> SaveData {
        self.save
    }

    /// Game account to the match being notified for it.
    pub closed spec fn active(&self) -> Map<u64, GamePosts> {
        self.games@
    }

    /// Whether a match `match_id` is already being notified for `steam_id`.
    pub open spec fn continues(&self, steam_id: u64, match_id: u64) -> bool {
        self.active().contains_key(steam_id) && self.active()[steam_id].match_id == match_id
    }

    /// For a snapshot that qualifies, the game account, the user registered
    /// for the client identity, and the match number.
    pub open spec fn target(&self, snap: Snapshot, token: Option<u128>) -> Option<(u64, u64, u64)> {
        if snap.playing() && snap.ladder_live() && token is Some && snap.account() is Some
            && self.data().registrations().contains_key((token->0, snap.account()->0))
            && snap.match_number() is Some {
            Some(
                (
                    snap.account()->0,
                    self.data().registrations()[(token->0, snap.account()->0)],
                    snap.match_number()->0,
                ),
            )
        } else {
            None
        }
    }

    /// What deciding on snapshot `snap` with client token `token` does, from
    /// this state to `after`, with decision `plan`. The aggregate never
    /// changes. A snapshot without playing hero and player sections, from a
    /// custom game, or that does not otherwise qualify changes nothing. For the
    /// match already followed, every recorded notification is to be edited
    /// and none created. For another match, one notification is to be created
    /// per tracked channel and none edited; a user without tracked channels
    /// has the account's match dropped.
    pub open spec fn snapshot_step(self, after: Bot, snap: Snapshot, token: Option<u128>, plan: Plan) -> bool {
        &&& after.wf()
        &&& after.data() == self.data()
        &&& !snap.playing() ==> plan is Ignore && after.active() == self.active()
        &&& (snap.map matches Some(m) && m.custom_game_name@.len() > 0) ==> plan is Ignore
            && after.active() == self.active()
        &&& match self.target(snap, token) {
            None => plan is Ignore && after.active() == self.active(),
            Some((steam_id, user, match_id)) => if self.continues(steam_id, match_id) {
                &&& plan matches Plan::Edit { match_id: m, messages }
                &&& m == match_id
                &&& messages@ == self.active()[steam_id].messages@
                &&& after.active() == self.active()
            } else if !self.data().tracks().contains_key(user) {
                &&& plan is Ignore
                &&& after.active() == self.active().remove(steam_id)
            } else {
                &&& plan matches Plan::Create { steam_id: s, match_id: m, channels }
                &&& s == steam_id
                &&& m == match_id
                &&& channels@.no_duplicates()
                &&& channels@.to_set() == self.data().tracks()[user]
                &&& channels@.len() == self.data().tracks()[user].len()
                &&& after.active() == self.active()
            },
        }
    }

    /// The token a snapshot carries, as read by the token parser.
    pub open spec fn snapshot_token(snap: Snapshot) -> Option<u128> {
        match snap.auth_token {
            Some(t) => ulid_value(t@),
            None => None,
        }
    }

    /// Starts from the stored aggregate: `None` where there is no store file
    /// yet, else its bytes. Bytes that do not decode give the empty aggregate.
    pub fn new(stored: Option<&[u8]>) -> (r: Bot)
        ensures
            r.wf(),
            r.active() == Map::<u64, GamePosts>::empty(),
            r.data()@ == (match stored {
                Some(b) => decoded(b@),
                None => empty_record(),
            }),
    {
        let save = match stored {
            Some(b) => SaveData::decode(b),
            None => SaveData::new(),
        };
        Bot { save, games: HashMap::new() }
    }

    /// The durable aggregate.
    pub fn saved(&self) -> (r: &SaveData)
        ensures
            *r == self.data(),
    {
        &self.save
    }

    /// The bytes to write to the store file; loading them gives back the
    /// current aggregate.
    pub fn write_data(&self) -> (r: Vec<u8>)
        requires
            self.wf(),
        ensures
            r@ == packed(self.data()@),
            decoded(r@) == self.data()@,
    {
        self.save.encode()
    }

    /// A token for a new registration: a fresh draw, drawn again a few times
    /// while it is in use, and in the end one that no registration uses.
    fn issue_token(&self) -> (r: u128)
        requires
            self.wf(),
        ensures
            !self.data().token_used(r),
    {
        let mut draw = fresh_token();
        let mut tries: u32 = 1;
        while tries < 4
            invariant
                1 <= tries <= 4,
            decreases 4 - tries,
        {
            if !self.save.token_in_use(draw) {
                break;
            }
            draw = fresh_token();
            tries = tries + 1;
        }
        self.save.unused_token(draw)
    }

    /// Registers client identity (`token`, `steam_id`) for `user`.
    pub fn register_user(&mut self, user: u64, steam_id: u64, token: u128) -> (r: Outcome)
        requires
            old(self).wf(),
        ensures
            final(self).wf(),
            r == (Outcome { reply: Reply::Token(token), persist: true }),
            final(self).data().registrations() == old(self).data().registrations().insert(
                (token, steam_id),
                user,
            ),
            final(self).data().bindings() == old(self).data().bindings(),
            final(self).data().tracks() == old(self).data().tracks(),
            final(self).active() == old(self).active(),
    {
        self.save.register(token, steam_id, user);
        Outcome { reply: Reply::Token(token), persist: true }
    }

    /// Applies one control request to the aggregate. Registration issues a
    /// token that no registration uses yet, and keeps every earlier one; binding always succeeds; tracking is refused for a channel
    /// that is not bound; untracking always succeeds. `persist` is set exactly
    /// when the aggregate changed or a channel was bound.
    pub fn handle_bot_request(&mut self, req: BotRequest) -> (r: Outcome)
        requires
            old(self).wf(),
        ensures
            final(self).wf(),
            final(self).active() == old(self).active(),
            match req {
                BotRequest::RegisterUser { user, steam_id } => {
                    &&& r.persist
                    &&& r.reply matches Reply::Token(t)
                    &&& !old(self).data().token_used(r.reply->Token_0)
                    &&& old(self).data().registrations().submap_of(final(self).data().registrations())
                    &&& final(self).data().registrations() == old(
                        self,
                    ).data().registrations().insert((r.reply->Token_0, steam_id), user)
                    &&& final(self).data().bindings() == old(self).data().bindings()
                    &&& final(self).data().tracks() == old(self).data().tracks()
                },
                BotRequest::BindChannel { channel } => {
                    &&& r == (Outcome { reply: Reply::Done, persist: true })
                    &&& final(self).data().bindings() == old(self).data().bindings().insert(
                        channel,
                    )
                    &&& final(self).data().registrations() == old(self).data().registrations()
                    &&& final(self).data().tracks() == old(self).data().tracks()
                },
                BotRequest::AddTrack { user, channel } => if old(self).data().bindings().contains(
                    channel,
                ) {
                    &&& r == (Outcome { reply: Reply::Done, persist: true })
                    &&& final(self).data().tracks() == old(self).data().tracks().insert(
                        user,
                        if old(self).data().tracks().contains_key(user) {
                            old(self).data().tracks()[user].insert(channel)
                        } else {
                            set![channel]
                        },
                    )
                    &&& final(self).data().bindings() == old(self).data().bindings()
                    &&& final(self).data().registrations() == old(self).data().registrations()
                } else {
                    &&& r == (Outcome { reply: Reply::Refused, persist: false })
                    &&& final(self).data()@ == old(self).data()@
                },
                BotRequest::RemoveTrack { user, channel } => if old(
                    self,
                ).data().tracks().contains_key(user) && old(self).data().tracks()[user].contains(
                    channel,
                ) {
                    let rest = old(self).data().tracks()[user].remove(channel);
                    &&& r == (Outcome { reply: Reply::Done, persist: true })
                    &&& final(self).data().tracks() == (if rest == Set::<u64>::empty() {
                        old(self).data().tracks().remove(user)
                    } else {
                        old(self).data().tracks().insert(user, rest)
                    })
                    &&& final(self).data().bindings() == old(self).data().bindings()
                    &&& final(self).data().registrations() == old(self).data().registrations()
                } else {
                    &&& r == (Outcome { reply: Reply::Done, persist: false })
                    &&& final(self).data()@ == old(self).data()@
                },
            },
    {
        match req {
            BotRequest::RegisterUser { user, steam_id } => {
                let token = self.issue_token();
                let r = self.register_user(user, steam_id, token);
                proof {
                    assert(!old(self).data().registrations().contains_key((token, steam_id)));
                }
                r
            },
            BotRequest::BindChannel { channel } => {
                self.save.bind_channel(channel);
                Outcome { reply: Reply::Done, persist: true }
            },
            BotRequest::AddTrack { user, channel } => {
                if self.save.add_track(user, channel) {
                    Outcome { reply: Reply::Done, persist: true }
                } else {
                    Outcome { reply: Reply::Refused, persist: false }
                }
            },
            BotRequest::RemoveTrack { user, channel } => {
                let removed = self.save.remove_track(user, channel);
                Outcome { reply: Reply::Done, persist: removed }
            },
        }
    }

    /// Decides what a snapshot carrying client token `token` (as read from
    /// its text) asks for; see [`Bot::snapshot_step`].
    pub fn process_snapshot(&mut self, snap: &Snapshot, token: Option<u128>) -> (plan: Plan)
        requires
            old(self).wf(),
        ensures
            old(self).snapshot_step(*final(self), *snap, token, plan),
    {
        if !snap.is_candidate() {
            return Plan::Ignore;
        }
        let token = match token {
            Some(t) => t,
            None => {
                return Plan::Ignore;
            },
        };
        let steam_id = match snap.account_id() {
            Some(s) => s,
            None => {
                return Plan::Ignore;
            },
        };
        let user = match self.save.find_user(token, steam_id) {
            Some(u) => u,
            None => {
                return Plan::Ignore;
            },
        };
        let match_id = match snap.match_id() {
            Some(m) => m,
            None => {
                return Plan::Ignore;
            },
        };
        match self.games.get(&steam_id) {
            Some(game) => {
                if game.match_id == match_id {
                    return Plan::Edit { match_id, messages: copy_refs(&game.messages) };
                }
            },
            None => {},
        }
        let channels = self.save.tracked_channels(user);
        if channels.len() == 0 {
            self.games.remove(&steam_id);
            return Plan::Ignore;
        }
        Plan::Create { steam_id, match_id, channels }
    }

    /// Decides what a snapshot asks for, reading its client token first:
    /// the decision of [`Bot::process_snapshot`] for the token as read.
    pub fn handle_game_state(&mut self, snap: &Snapshot) -> (plan: Plan)
        requires
            old(self).wf(),
        ensures
            old(self).snapshot_step(*final(self), *snap, Self::snapshot_token(*snap), plan),
    {
        let token = match &snap.auth_token {
            Some(t) => parse_token(t.as_str()),
            None => None,
        };
        self.process_snapshot(snap, token)
    }

    /// Records the notifications posted for a new match of `steam_id`; they
    /// replace whatever was recorded for that account before.
    pub fn record_match(&mut self, steam_id: u64, match_id: u64, messages: Vec<MessageRef>)
        requires
            old(self).wf(),
        ensures
            final(self).wf(),
            final(self).data() == old(self).data(),
            final(self).active().contains_key(steam_id),
            final(self).active()[steam_id].match_id == match_id,
            final(self).active()[steam_id].messages@ == messages@,
            final(self).active() == old(self).active().insert(
                steam_id,
                final(self).active()[steam_id],
            ),
    {
        self.games.insert(steam_id, GamePosts { match_id, messages });
    }
}

} // verus!
