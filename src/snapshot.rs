//! One telemetry snapshot pushed by the game client, as the library reads it.

use vstd::prelude::*;
use crate::decimal::{decimal_u64, parse_u64};

verus! {

/// The phase of the match that the game reports.
#[derive(Clone, Copy, Debug, PartialEq, Eq, Structural)]
pub enum GamePhase {
    Init,
    WaitForPlayersToLoad,
    HeroSelection,
    StrategyTime,
    PreGame,
    GameInProgress,
    PostGame,
    Disconnect,
    TeamShowcase,
    CustomGameSetup,
    WaitForMapToLoad,
    PlayerDraft,
    Last,
    /// A phase name this library does not know.
    Unknown,
}

impl GamePhase {
    /// The phases during which a match is followed: strategy time, pre-game,
    /// in progress and post-game.
    pub open spec fn is_live(self) -> bool {
        match self {
            GamePhase::StrategyTime | GamePhase::PreGame | GamePhase::GameInProgress
            | GamePhase::PostGame => true,
            _ => false,
        }
    }

    pub fn is_followed(&self) -> (r: bool)
        ensures
            r == self.is_live(),
    {
        match self {
            GamePhase::StrategyTime | GamePhase::PreGame | GamePhase::GameInProgress
            | GamePhase::PostGame => true,
            _ => false,
        }
    }
}

/// The map section.
#[derive(Clone, Debug)]
pub struct MapInfo {
    pub game_state: GamePhase,
    pub custom_game_name: String,
    pub match_id: String,
    pub clock_time: i64,
    pub radiant_score: u32,
    pub dire_score: u32,
}

/// The player section of a client that plays.
#[derive(Clone, Debug)]
pub struct PlayerInfo {
    pub steam_id: String,
    pub name: String,
    pub team_name: String,
    pub gold: u32,
    pub kills: u32,
    pub deaths: u32,
    pub assists: u32,
    pub last_hits: u32,
    pub denies: u32,
    pub xpm: u32,
    pub gpm: u32,
}

/// The hero section of a client that plays.
#[derive(Clone, Debug)]
pub struct HeroInfo {
    pub name: Option<String>,
    pub level: Option<u32>,
    pub health: Option<u32>,
    pub max_health: Option<u32>,
    pub mana: Option<u32>,
    pub max_mana: Option<u32>,
}

/// The player section: a spectating client reports a different shape.
#[derive(Clone, Debug)]
pub enum PlayerSection {
    Spectating,
    Playing(PlayerInfo),
}

/// The hero section: a spectating client reports a different shape.
#[derive(Clone, Debug)]
pub enum HeroSection {
    Spectating,
    Playing(HeroInfo),
}

/// A telemetry snapshot; every section may be missing.
#[derive(Clone, Debug)]
pub struct Snapshot {
    pub map: Option<MapInfo>,
    pub player: Option<PlayerSection>,
    pub hero: Option<HeroSection>,
    pub auth_token: Option<String>,
}

impl Snapshot {
    /// Both the hero and the player section are there, in their playing form.
    pub open spec fn playing(&self) -> bool {
        &&& self.hero matches Some(HeroSection::Playing(_))
        &&& self.player matches Some(PlayerSection::Playing(_))
    }

    /// The map section is there, names no custom game, and its phase is followed.
    pub open spec fn ladder_live(&self) -> bool {
        &&& self.map matches Some(m)
        &&& self.map->0.custom_game_name@.len() == 0
        &&& self.map->0.game_state.is_live()
    }

    /// The game account of a playing client, where its text reads as a number.
    pub open spec fn account(&self) -> Option<u64> {
        match self.player {
            Some(PlayerSection::Playing(p)) => decimal_u64(p.steam_id@),
            _ => None,
        }
    }

    /// The match number, where the map section's text reads as one.
    pub open spec fn match_number(&self) -> Option<u64> {
        match self.map {
            Some(m) => decimal_u64(m.match_id@),
            None => None,
        }
    }

    /// Whether the snapshot can advance tracking state at all, identity aside.
    pub fn is_candidate(&self) -> (r: bool)
        ensures
            r == (self.playing() && self.ladder_live()),
    {
        match (&self.hero, &self.player, &self.map) {
            (Some(HeroSection::Playing(_)), Some(PlayerSection::Playing(_)), Some(m)) => {
                m.custom_game_name.as_str().is_empty() && m.game_state.is_followed()
            },
            _ => false,
        }
    }

    pub fn account_id(&self) -> (r: Option<u64>)
        ensures
            r == self.account(),
    {
        match &self.player {
            Some(PlayerSection::Playing(p)) => parse_u64(p.steam_id.as_str()),
            _ => None,
        }
    }

    pub fn match_id(&self) -> (r: Option<u64>)
        ensures
            r == self.match_number(),
    {
        match &self.map {
            Some(m) => parse_u64(m.match_id.as_str()),
            None => None,
        }
    }
}

} // verus!
