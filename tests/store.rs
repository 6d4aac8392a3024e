use dota_stalker::bot::{Bot, BotRequest};
use dota_stalker::store::{contains_id, copy_ids, distinct_ids, SaveData};

fn sample() -> SaveData {
    let mut d = SaveData::new();
    d.bind_channel(10);
    d.bind_channel(11);
    d.register(77, 5, 1);
    d.register(78, 6, 2);
    assert!(d.add_track(1, 10));
    assert!(d.add_track(1, 11));
    assert!(d.add_track(2, 11));
    d
}

#[test]
fn persisted_data_reloads_identically() {
    let d = sample();
    let bytes = d.encode();
    assert!(SaveData::try_decode(&bytes).is_some());
    let back = SaveData::decode(&bytes);
    for c in [10, 11, 12] {
        assert_eq!(back.is_bound(c), d.is_bound(c));
    }
    assert_eq!(back.find_user(77, 5), Some(1));
    assert_eq!(back.find_user(78, 6), Some(2));
    assert_eq!(back.find_user(77, 6), None);
    assert_eq!(back.tracked_channels(1), vec![10, 11]);
    assert_eq!(back.tracked_channels(2), vec![11]);
    assert_eq!(back.encode(), bytes);
}

#[test]
fn bot_reloads_its_written_data() {
    let mut bot = Bot::new(None);
    bot.handle_bot_request(BotRequest::BindChannel { channel: 3 });
    bot.handle_bot_request(BotRequest::AddTrack { user: 9, channel: 3 });
    let bytes = bot.write_data();
    let again = Bot::new(Some(&bytes));
    assert!(again.saved().is_bound(3));
    assert_eq!(again.saved().tracked_channels(9), vec![3]);
}

#[test]
fn undecodable_store_gives_empty_data() {
    let d = SaveData::decode(&[0xc1, 0x00, 0x13]);
    assert!(!d.is_bound(10));
    assert!(d.tracked_channels(1).is_empty());
    let bot = Bot::new(Some(&[]));
    assert!(!bot.saved().is_bound(10));
}

#[test]
fn ill_formed_record_is_refused() {
    assert!(SaveData::from_record(vec![1, 1], vec![], vec![]).is_none());
    assert!(SaveData::from_record(vec![1], vec![], vec![(4, vec![2])]).is_none());
    assert!(SaveData::from_record(vec![1], vec![], vec![(4, vec![])]).is_none());
    assert!(SaveData::from_record(vec![1], vec![], vec![(4, vec![1, 1])]).is_none());
    assert!(SaveData::from_record(vec![1], vec![], vec![(4, vec![1]), (4, vec![1])]).is_none());
    let ok = SaveData::from_record(vec![1, 2], vec![(9, 8, 7)], vec![(4, vec![2, 1])]).expect("well formed");
    assert_eq!(ok.find_user(9, 8), Some(7));
    assert_eq!(ok.tracked_channels(4), vec![2, 1]);
}

#[test]
fn ill_formed_store_gives_empty_data() {
    let bad = SaveData::from_record(vec![1], vec![], vec![]).expect("well formed");
    let mut bytes = bad.encode();
    // a store whose track names an unbound channel
    let crafted = rmp_serde::to_vec(&(vec![1u64], Vec::<(u128, u64, u64)>::new(), vec![(4u64, vec![2u64])])).expect("encodes");
    assert!(SaveData::try_decode(&crafted).is_none());
    let d = SaveData::decode(&crafted);
    assert!(!d.is_bound(1));
    assert!(d.tracked_channels(4).is_empty());
    bytes.truncate(1);
    assert!(!SaveData::decode(&bytes).is_bound(1));
}

#[test]
fn remove_last_channel_drops_entry() {
    let mut d = sample();
    assert!(d.remove_track(2, 11));
    assert!(d.tracked_channels(2).is_empty());
    assert!(!d.remove_track(2, 11));
    assert!(d.remove_track(1, 10));
    assert_eq!(d.tracked_channels(1), vec![11]);
}

#[test]
fn later_registration_of_same_identity_wins() {
    let mut d = SaveData::new();
    d.register(1, 2, 3);
    d.register(1, 2, 4);
    assert_eq!(d.find_user(1, 2), Some(4));
}

#[test]
fn id_helpers() {
    assert!(contains_id(&vec![3, 4], 4));
    assert!(!contains_id(&vec![], 4));
    assert_eq!(copy_ids(&vec![5, 6]), vec![5, 6]);
    assert!(distinct_ids(&vec![1, 2, 3]));
    assert!(!distinct_ids(&vec![1, 2, 1]));
}

#[test]
fn unused_token_avoids_registered_ones() {
    let mut d = SaveData::new();
    assert_eq!(d.unused_token(7), 7);
    d.register(0, 1, 10);
    d.register(1, 2, 11);
    d.register(2, 1, 12);
    assert!(d.token_in_use(1));
    assert!(!d.token_in_use(3));
    assert_eq!(d.unused_token(9), 9);
    assert_eq!(d.unused_token(1), 3);
    let mut e = SaveData::new();
    e.register(5, 1, 10);
    assert_eq!(e.unused_token(5), 0);
}
