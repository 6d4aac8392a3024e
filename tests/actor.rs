use dota_stalker::bot::{Bot, BotRequest, MessageRef, Outcome, Plan, Reply};
use dota_stalker::snapshot::{
    GamePhase, HeroInfo, HeroSection, MapInfo, PlayerInfo, PlayerSection, Snapshot,
};

const U1: u64 = 1001;
const C1: u64 = 2001;
const STEAM: &str = "76561198000000001";
const STEAM_ID: u64 = 76561198000000001;

fn token_text(t: u128) -> String {
    rusty_ulid::Ulid::from(t).to_string()
}

fn snapshot(token: Option<String>, steam: &str, phase: GamePhase, match_id: &str, clock: i64) -> Snapshot {
    Snapshot {
        map: Some(MapInfo {
            game_state: phase,
            custom_game_name: String::new(),
            match_id: match_id.to_string(),
            clock_time: clock,
            radiant_score: 3,
            dire_score: 1,
        }),
        player: Some(PlayerSection::Playing(PlayerInfo {
            steam_id: steam.to_string(),
            name: "player".to_string(),
            team_name: "radiant".to_string(),
            gold: 600,
            kills: 1,
            deaths: 0,
            assists: 2,
            last_hits: 10,
            denies: 1,
            xpm: 300,
            gpm: 280,
        })),
        hero: Some(HeroSection::Playing(HeroInfo {
            name: Some("npc_dota_hero_axe".to_string()),
            level: Some(3),
            health: Some(700),
            max_health: Some(700),
            mana: Some(200),
            max_mana: Some(290),
        })),
        auth_token: token,
    }
}

fn register(bot: &mut Bot, user: u64, steam_id: u64) -> u128 {
    let out = bot.handle_bot_request(BotRequest::RegisterUser { user, steam_id });
    assert!(out.persist);
    match out.reply {
        Reply::Token(t) => t,
        other => panic!("unexpected reply {:?}", other),
    }
}

/// A bot with U1 registered, C1 bound and tracked; returns it with U1's token.
fn tracked_bot() -> (Bot, u128) {
    let mut bot = Bot::new(None);
    let t = register(&mut bot, U1, STEAM_ID);
    bot.handle_bot_request(BotRequest::BindChannel { channel: C1 });
    let out = bot.handle_bot_request(BotRequest::AddTrack { user: U1, channel: C1 });
    assert_eq!(out, Outcome { reply: Reply::Done, persist: true });
    (bot, t)
}

fn expect_create(plan: Plan) -> (u64, u64, Vec<u64>) {
    match plan {
        Plan::Create { steam_id, match_id, channels } => (steam_id, match_id, channels),
        other => panic!("expected a create, got {:?}", other),
    }
}

fn expect_edit(plan: Plan) -> (u64, Vec<MessageRef>) {
    match plan {
        Plan::Edit { match_id, messages } => (match_id, messages),
        other => panic!("expected an edit, got {:?}", other),
    }
}

#[test]
fn end_to_end_create_edit_replace() {
    let (mut bot, t1) = tracked_bot();
    let first = snapshot(Some(token_text(t1)), STEAM, GamePhase::PreGame, "123", -60);
    let (steam_id, match_id, channels) = expect_create(bot.handle_game_state(&first));
    assert_eq!((steam_id, match_id, channels.clone()), (STEAM_ID, 123, vec![C1]));
    let posted = MessageRef { channel: C1, message: 9001 };
    bot.record_match(steam_id, match_id, vec![posted]);

    let later = snapshot(Some(token_text(t1)), STEAM, GamePhase::PreGame, "123", -30);
    let (m, messages) = expect_edit(bot.handle_game_state(&later));
    assert_eq!(m, 123);
    assert_eq!(messages, vec![posted]);

    let next = snapshot(Some(token_text(t1)), STEAM, GamePhase::GameInProgress, "456", 10);
    let (steam_id, match_id, channels) = expect_create(bot.handle_game_state(&next));
    assert_eq!((steam_id, match_id, channels), (STEAM_ID, 456, vec![C1]));
    let reposted = MessageRef { channel: C1, message: 9002 };
    bot.record_match(steam_id, match_id, vec![reposted]);

    let after = snapshot(Some(token_text(t1)), STEAM, GamePhase::GameInProgress, "456", 40);
    let (m, messages) = expect_edit(bot.handle_game_state(&after));
    assert_eq!(m, 456);
    assert_eq!(messages, vec![reposted]);
}

#[test]
fn spectating_hero_is_ignored() {
    let (mut bot, t1) = tracked_bot();
    let mut snap = snapshot(Some(token_text(t1)), STEAM, GamePhase::PreGame, "123", 0);
    snap.hero = Some(HeroSection::Spectating);
    assert!(matches!(bot.handle_game_state(&snap), Plan::Ignore));
    snap.hero = None;
    assert!(matches!(bot.handle_game_state(&snap), Plan::Ignore));
}

#[test]
fn spectating_player_is_ignored() {
    let (mut bot, t1) = tracked_bot();
    let mut snap = snapshot(Some(token_text(t1)), STEAM, GamePhase::PreGame, "123", 0);
    snap.player = Some(PlayerSection::Spectating);
    assert!(matches!(bot.handle_game_state(&snap), Plan::Ignore));
    snap.player = None;
    assert!(matches!(bot.handle_game_state(&snap), Plan::Ignore));
}

#[test]
fn custom_game_is_ignored() {
    let (mut bot, t1) = tracked_bot();
    let mut snap = snapshot(Some(token_text(t1)), STEAM, GamePhase::GameInProgress, "123", 0);
    if let Some(m) = snap.map.as_mut() {
        m.custom_game_name = "overthrow".to_string();
    }
    assert!(matches!(bot.handle_game_state(&snap), Plan::Ignore));
}

#[test]
fn untracked_phases_are_ignored() {
    let (mut bot, t1) = tracked_bot();
    for phase in [GamePhase::HeroSelection, GamePhase::Init, GamePhase::Disconnect, GamePhase::WaitForPlayersToLoad] {
        let snap = snapshot(Some(token_text(t1)), STEAM, phase, "123", 0);
        assert!(matches!(bot.handle_game_state(&snap), Plan::Ignore));
    }
    for phase in [GamePhase::StrategyTime, GamePhase::PostGame] {
        let snap = snapshot(Some(token_text(t1)), STEAM, phase, "77", 0);
        assert!(matches!(bot.handle_game_state(&snap), Plan::Create { .. }));
    }
}

#[test]
fn missing_or_invalid_token_is_ignored() {
    let (mut bot, _) = tracked_bot();
    let snap = snapshot(None, STEAM, GamePhase::PreGame, "123", 0);
    assert!(matches!(bot.handle_game_state(&snap), Plan::Ignore));
    let snap = snapshot(Some("not a token".to_string()), STEAM, GamePhase::PreGame, "123", 0);
    assert!(matches!(bot.handle_game_state(&snap), Plan::Ignore));
}

#[test]
fn unknown_identity_is_ignored() {
    let (mut bot, t1) = tracked_bot();
    let other = token_text(t1 ^ 1);
    let snap = snapshot(Some(other), STEAM, GamePhase::PreGame, "123", 0);
    assert!(matches!(bot.handle_game_state(&snap), Plan::Ignore));
    let snap = snapshot(Some(token_text(t1)), "76561198000000002", GamePhase::PreGame, "123", 0);
    assert!(matches!(bot.handle_game_state(&snap), Plan::Ignore));
}

#[test]
fn unparsable_numbers_are_ignored() {
    let (mut bot, t1) = tracked_bot();
    let snap = snapshot(Some(token_text(t1)), STEAM, GamePhase::PreGame, "12a", 0);
    assert!(matches!(bot.handle_game_state(&snap), Plan::Ignore));
    let snap = snapshot(Some(token_text(t1)), "7656x", GamePhase::PreGame, "123", 0);
    assert!(matches!(bot.handle_game_state(&snap), Plan::Ignore));
}

#[test]
fn process_snapshot_with_given_token() {
    let (mut bot, t1) = tracked_bot();
    let snap = snapshot(Some("ignored here".to_string()), STEAM, GamePhase::PreGame, "5", 0);
    let (_, m, channels) = expect_create(bot.process_snapshot(&snap, Some(t1)));
    assert_eq!((m, channels), (5, vec![C1]));
    assert!(matches!(bot.process_snapshot(&snap, None), Plan::Ignore));
    assert!(matches!(bot.process_snapshot(&snap, Some(t1 + 1)), Plan::Ignore));
}

#[test]
fn no_tracked_channels_clears_active_match() {
    let (mut bot, t1) = tracked_bot();
    let snap = snapshot(Some(token_text(t1)), STEAM, GamePhase::PreGame, "123", 0);
    let (s, m, _) = expect_create(bot.handle_game_state(&snap));
    bot.record_match(s, m, vec![MessageRef { channel: C1, message: 1 }]);
    let out = bot.handle_bot_request(BotRequest::RemoveTrack { user: U1, channel: C1 });
    assert_eq!(out, Outcome { reply: Reply::Done, persist: true });
    let fresh = snapshot(Some(token_text(t1)), STEAM, GamePhase::PreGame, "124", 0);
    assert!(matches!(bot.handle_game_state(&fresh), Plan::Ignore));
    // the match was dropped: once tracked again, the old match number creates anew
    bot.handle_bot_request(BotRequest::AddTrack { user: U1, channel: C1 });
    assert!(matches!(bot.handle_game_state(&snap), Plan::Create { .. }));
}

#[test]
fn several_channels_create_and_edit_each() {
    let (mut bot, t1) = tracked_bot();
    for c in [C1 + 1, C1 + 2] {
        bot.handle_bot_request(BotRequest::BindChannel { channel: c });
        bot.handle_bot_request(BotRequest::AddTrack { user: U1, channel: c });
    }
    let snap = snapshot(Some(token_text(t1)), STEAM, GamePhase::PreGame, "9", 0);
    let (s, m, mut channels) = expect_create(bot.handle_game_state(&snap));
    channels.sort();
    assert_eq!(channels, vec![C1, C1 + 1, C1 + 2]);
    let posted: Vec<MessageRef> = channels.iter().map(|c| MessageRef { channel: *c, message: c + 50 }).collect();
    bot.record_match(s, m, posted.clone());
    let (_, edits) = expect_edit(bot.handle_game_state(&snap));
    assert_eq!(edits, posted);
}

#[test]
fn add_track_for_unbound_channel_fails() {
    let mut bot = Bot::new(None);
    register(&mut bot, U1, STEAM_ID);
    let out = bot.handle_bot_request(BotRequest::AddTrack { user: U1, channel: C1 });
    assert_eq!(out, Outcome { reply: Reply::Refused, persist: false });
    assert!(bot.saved().tracked_channels(U1).is_empty());
}

#[test]
fn remove_absent_track_is_a_no_op() {
    let (mut bot, _) = tracked_bot();
    let out = bot.handle_bot_request(BotRequest::RemoveTrack { user: U1 + 1, channel: C1 });
    assert_eq!(out, Outcome { reply: Reply::Done, persist: false });
    let out = bot.handle_bot_request(BotRequest::RemoveTrack { user: U1, channel: C1 + 7 });
    assert_eq!(out, Outcome { reply: Reply::Done, persist: false });
    assert_eq!(bot.saved().tracked_channels(U1), vec![C1]);
}

#[test]
fn bind_is_idempotent() {
    let mut bot = Bot::new(None);
    let a = bot.handle_bot_request(BotRequest::BindChannel { channel: C1 });
    let b = bot.handle_bot_request(BotRequest::BindChannel { channel: C1 });
    assert_eq!(a, Outcome { reply: Reply::Done, persist: true });
    assert_eq!(a, b);
    assert!(bot.saved().is_bound(C1));
}

#[test]
fn add_track_twice_keeps_one_entry() {
    let (mut bot, _) = tracked_bot();
    bot.handle_bot_request(BotRequest::AddTrack { user: U1, channel: C1 });
    assert_eq!(bot.saved().tracked_channels(U1), vec![C1]);
}

#[test]
fn register_twice_gives_two_valid_tokens() {
    let mut bot = Bot::new(None);
    let a = register(&mut bot, U1, STEAM_ID);
    let b = register(&mut bot, U1, STEAM_ID);
    assert_ne!(a, b);
    assert_eq!(bot.saved().find_user(a, STEAM_ID), Some(U1));
    assert_eq!(bot.saved().find_user(b, STEAM_ID), Some(U1));
}

#[test]
fn register_user_with_given_token() {
    let mut bot = Bot::new(None);
    let out = bot.register_user(U1, 5, 42);
    assert_eq!(out, Outcome { reply: Reply::Token(42), persist: true });
    assert_eq!(bot.saved().find_user(42, 5), Some(U1));
    assert_eq!(bot.saved().find_user(42, 6), None);
    assert_eq!(bot.saved().find_user(43, 5), None);
}

#[test]
fn token_text_is_read_case_insensitively() {
    let (mut bot, t1) = tracked_bot();
    let lower = token_text(t1).to_lowercase();
    let snap = snapshot(Some(lower), STEAM, GamePhase::PreGame, "123", 0);
    assert!(matches!(bot.handle_game_state(&snap), Plan::Create { .. }));
    let too_long = format!("{}0", token_text(t1));
    let snap = snapshot(Some(too_long), STEAM, GamePhase::PreGame, "123", 0);
    assert!(matches!(bot.handle_game_state(&snap), Plan::Ignore));
}

#[test]
fn crockford_aliases_read_as_digits() {
    let mut bot = Bot::new(None);
    // "I" and "L" both read as 1, so the text spells 0x21
    bot.register_user(U1, STEAM_ID, 0x21);
    bot.handle_bot_request(BotRequest::BindChannel { channel: C1 });
    bot.handle_bot_request(BotRequest::AddTrack { user: U1, channel: C1 });
    let text = "000000000000000000000000IL".to_string();
    assert_eq!(token_text(0x21), "00000000000000000000000011");
    let snap = snapshot(Some(text), STEAM, GamePhase::PreGame, "1", 0);
    assert!(matches!(bot.handle_game_state(&snap), Plan::Create { .. }));
    let overflow = "80000000000000000000000000".to_string();
    let snap = snapshot(Some(overflow), STEAM, GamePhase::PreGame, "1", 0);
    assert!(matches!(bot.handle_game_state(&snap), Plan::Ignore));
}

#[test]
fn registration_keeps_earlier_tokens_valid() {
    let mut bot = Bot::new(None);
    let a = register(&mut bot, U1, STEAM_ID);
    let b = register(&mut bot, U1 + 1, STEAM_ID);
    assert_ne!(a, b);
    assert_eq!(bot.saved().find_user(a, STEAM_ID), Some(U1));
    assert_eq!(bot.saved().find_user(b, STEAM_ID), Some(U1 + 1));
}
