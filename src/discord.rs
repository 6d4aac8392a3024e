//! The command layer's decisions: which control request a slash command
//! becomes, and what the user is answered. Talking to the chat platform is
//! left to the caller.

use vstd::prelude::*;
use crate::bot::{BotRequest, Reply};
use crate::decimal::{decimal_u64, parse_u64};

verus! {

/// A slash command with its options, as plain values.
#[derive(Clone, Debug)]
pub enum CommandInput {
    /// `register`, with the text of its `steamid` option if one was given.
    Register { steam_id: Option<String> },
    /// `bind`, with whether the caller is an administrator and the text of
    /// its `channel` option.
    Bind { administrator: bool, channel: Option<String> },
    /// `track`, with its `disable` option if one was given.
    Track { disable: Option<bool> },
}

/// What the user is told.
#[derive(Clone, Copy, Debug, PartialEq, Eq, Structural)]
pub enum Answer {
    /// Commands sent outside a server are not taken.
    NotInServer,
    InvalidSteamId,
    NotAdministrator,
    InvalidChannel,
    /// A token was issued.
    Token(u128),
    /// The bot was bound to this channel.
    Bound(u64),
    /// Tracking was changed as asked.
    Success,
    /// The channel tracked in is not bound.
    NotBound,
    UnexpectedError,
}

/// What to do with a command: send a request to the actor, or answer at once.
#[derive(Clone, Copy, Debug, PartialEq, Eq, Structural)]
pub enum Decision {
    Send(BotRequest),
    Answer(Answer),
}

/// The handler of the chat platform's command events.
pub struct Events;

impl Events {
    /// The decision for a command from `user` in `channel`; `in_server` is
    /// false for a direct message.
    pub open spec fn decision(in_server: bool, user: u64, channel: u64, cmd: CommandInput) -> Decision {
        if !in_server {
            Decision::Answer(Answer::NotInServer)
        } else {
            match cmd {
                CommandInput::Register { steam_id } => match steam_id {
                    Some(s) => match decimal_u64(s@) {
                        Some(id) => Decision::Send(BotRequest::RegisterUser { user, steam_id: id }),
                        None => Decision::Answer(Answer::InvalidSteamId),
                    },
                    None => Decision::Answer(Answer::InvalidSteamId),
                },
                CommandInput::Bind { administrator, channel: target } => if !administrator {
                    Decision::Answer(Answer::NotAdministrator)
                } else {
                    match target {
                        Some(s) => match decimal_u64(s@) {
                            Some(c) => Decision::Send(BotRequest::BindChannel { channel: c }),
                            None => Decision::Answer(Answer::InvalidChannel),
                        },
                        None => Decision::Answer(Answer::InvalidChannel),
                    }
                },
                CommandInput::Track { disable } => if disable == Some(true) {
                    Decision::Send(BotRequest::RemoveTrack { user, channel })
                } else {
                    Decision::Send(BotRequest::AddTrack { user, channel })
                },
            }
        }
    }

    /// Turns a command into a control request, or into an immediate answer
    /// when it is sent outside a server or its options do not read.
    pub fn interaction_create(&self, in_server: bool, user: u64, channel: u64, cmd: &CommandInput) -> (r: Decision)
        ensures
            r == Self::decision(in_server, user, channel, *cmd),
    {
        if !in_server {
            return Decision::Answer(Answer::NotInServer);
        }
        match cmd {
            CommandInput::Register { steam_id } => match steam_id {
                Some(s) => match parse_u64(s.as_str()) {
                    Some(id) => Decision::Send(BotRequest::RegisterUser { user, steam_id: id }),
                    None => Decision::Answer(Answer::InvalidSteamId),
                },
                None => Decision::Answer(Answer::InvalidSteamId),
            },
            CommandInput::Bind { administrator, channel: target } => {
                if !*administrator {
                    return Decision::Answer(Answer::NotAdministrator);
                }
                match target {
                    Some(s) => match parse_u64(s.as_str()) {
                        Some(c) => Decision::Send(BotRequest::BindChannel { channel: c }),
                        None => Decision::Answer(Answer::InvalidChannel),
                    },
                    None => Decision::Answer(Answer::InvalidChannel),
                }
            },
            CommandInput::Track { disable } => {
                let off = match disable {
                    Some(d) => *d,
                    None => false,
                };
                if off {
                    Decision::Send(BotRequest::RemoveTrack { user, channel })
                } else {
                    Decision::Send(BotRequest::AddTrack { user, channel })
                }
            },
        }
    }

    /// The answer to a request that was sent, given the actor's reply.
    pub fn answer(&self, req: BotRequest, reply: Reply) -> (r: Answer)
        ensures
            r == (match (req, reply) {
                (BotRequest::RegisterUser { .. }, Reply::Token(t)) => Answer::Token(t),
                (BotRequest::BindChannel { channel }, Reply::Done) => Answer::Bound(channel),
                (BotRequest::AddTrack { .. }, Reply::Done) => Answer::Success,
                (BotRequest::RemoveTrack { .. }, Reply::Done) => Answer::Success,
                (BotRequest::AddTrack { .. }, Reply::Refused) => Answer::NotBound,
                _ => Answer::UnexpectedError,
            }),
    {
        match (req, reply) {
            (BotRequest::RegisterUser { .. }, Reply::Token(t)) => Answer::Token(t),
            (BotRequest::BindChannel { channel }, Reply::Done) => Answer::Bound(channel),
            (BotRequest::AddTrack { .. }, Reply::Done) => Answer::Success,
            (BotRequest::RemoveTrack { .. }, Reply::Done) => Answer::Success,
            (BotRequest::AddTrack { .. }, Reply::Refused) => Answer::NotBound,
            _ => Answer::UnexpectedError,
        }
    }
}

} // verus!
