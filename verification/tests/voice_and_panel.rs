use rust_mumble::bans::BanList;
use rust_mumble::counters::{ClientCounters, HeardLog, HeardRecord, HEARD_CAPACITY};
use rust_mumble::order::sort_indices;
use rust_mumble::panel::{apply_user_command, heard_response, panel_order, shown_ip, UserCommand};
use rust_mumble::sampler::ChannelSnapshot;
use rust_mumble::voice::{build_voice_target, delivery, voice_recipients, TargetItem, VoiceRoute, VoiceSlot};

const SEC: u64 = 1_000_000_000;

fn sorted(v: Vec<u32>) -> Vec<u32> {
    let mut v = v;
    v.sort();
    v
}

#[test]
fn voice_target_ids_outside_one_to_thirty_are_refused() {
    assert!(build_voice_target(0, &vec![]).is_err());
    assert!(build_voice_target(31, &vec![]).is_err());
    assert!(build_voice_target(1, &vec![]).is_ok());
    assert!(build_voice_target(30, &vec![]).is_ok());
}

#[test]
fn voice_target_sessions_channels_and_keys() {
    let items = vec![
        TargetItem { sessions: vec![3, 4], channel_id: Some(7) },
        TargetItem { sessions: vec![4], channel_id: None },
        TargetItem { sessions: vec![], channel_id: Some(7) },
    ];
    let u = build_voice_target(5, &items).ok().unwrap();
    assert_eq!(u.id, 5);
    assert_eq!(sorted(u.sessions), vec![3, 4]);
    assert_eq!(u.channels, vec![7]);
    let s = 1u64 << 40;
    assert_eq!(u.keys, vec![s + 3, s + 4, 7, s + 4, 7]);
}

#[test]
fn channel_voice_goes_to_the_speakers_channel() {
    let chs = vec![
        ChannelSnapshot { id: 1, clients: vec![1, 2, 3], listeners: vec![9] },
        ChannelSnapshot { id: 2, clients: vec![4], listeners: vec![] },
    ];
    match voice_recipients(0, 1, 1, &chs, None, &vec![1, 2, 3, 4, 9]) {
        VoiceRoute::Deliver(v) => assert_eq!(sorted(v), vec![2, 3]),
        _ => panic!("expected delivery"),
    }
}

#[test]
fn whisper_reaches_connected_sessions_and_channel_members() {
    let chs = vec![
        ChannelSnapshot { id: 1, clients: vec![1, 2], listeners: vec![] },
        ChannelSnapshot { id: 2, clients: vec![4], listeners: vec![5, 1] },
    ];
    let slot = VoiceSlot { sessions: vec![2, 8, 1], channels: vec![2, 3] };
    match voice_recipients(4, 1, 1, &chs, Some(&slot), &vec![1, 2, 4, 5]) {
        VoiceRoute::Deliver(v) => assert_eq!(sorted(v), vec![2, 4, 5]),
        _ => panic!("expected delivery"),
    }
    match voice_recipients(4, 1, 1, &chs, None, &vec![1, 2, 4, 5]) {
        VoiceRoute::Deliver(v) => assert!(v.is_empty()),
        _ => panic!("expected delivery"),
    }
    assert!(matches!(voice_recipients(31, 1, 1, &chs, None, &vec![]), VoiceRoute::Loopback));
    assert!(matches!(voice_recipients(32, 1, 1, &chs, None, &vec![]), VoiceRoute::Invalid));
}

#[test]
fn sorting_indices() {
    let keys: Vec<u128> = vec![5, 1, 5, 3];
    assert_eq!(sort_indices(&keys, false), vec![1, 3, 0, 2]);
    assert_eq!(sort_indices(&keys, true), vec![0, 2, 3, 1]);
    assert!(sort_indices(&vec![], true).is_empty());
}

#[test]
fn panel_rows_by_score_then_window() {
    let scores = vec![10, 30, 30, 0];
    let windows = vec![99, 1, 5, 100];
    assert_eq!(panel_order(&scores, &windows), vec![2, 1, 0, 3]);
}

fn rec(session: u32, name: &str, last: u64, secs: u32) -> HeardRecord {
    HeardRecord { session, name: name.to_string(), ip: format!("10.0.0.{}", session), last, secs }
}

#[test]
fn heard_list_prunes_and_sorts() {
    let mut log = HeardLog::new();
    log.records.push(rec(1, "old", 0, 5));
    log.records.push(rec(2, "mid", 995 * SEC, 3));
    log.records.push(rec(3, "new", 999 * SEC + 500, 1));
    let r = heard_response(42, "victim".to_string(), 30, &mut log, 1000 * SEC);
    assert_eq!(r.session_id, 42);
    assert_eq!(r.name, "victim");
    assert_eq!(r.retention_secs, 30);
    assert_eq!(log.records.len(), 2);
    assert_eq!(r.heard.len(), 2);
    assert_eq!(r.heard[0].session_id, 3);
    assert_eq!(r.heard[0].ago_secs, 0);
    assert_eq!(r.heard[1].session_id, 2);
    assert_eq!(r.heard[1].ago_secs, 5);
    assert_eq!(r.heard[1].ip, "10.0.0.2");
    // A retention under ten seconds counts as ten.
    let mut log = HeardLog::new();
    log.records.push(rec(1, "a", 991 * SEC, 1));
    log.records.push(rec(2, "b", 989 * SEC, 1));
    let r = heard_response(1, "v".to_string(), 0, &mut log, 1000 * SEC);
    assert_eq!(r.heard.len(), 1);
    assert_eq!(r.heard[0].session_id, 1);
    log.clear();
    assert!(log.records.is_empty());
}

#[test]
fn user_commands_apply() {
    let mut c = ClientCounters::new();
    c.exempt = true;
    let e = apply_user_command(UserCommand::Block, &mut c);
    assert!(!c.exempt);
    let b = e.record.unwrap();
    assert_eq!(b.kind, "mute");
    assert_eq!(b.reason, "mute manuel");
    assert_eq!(e.mute, Some(true));
    assert!(!e.disconnect);

    let e = apply_user_command(UserCommand::Unblock, &mut c);
    assert!(c.exempt);
    assert!(e.lift_mutes);
    assert_eq!(e.mute, Some(false));

    let e = apply_user_command(UserCommand::Kick, &mut c);
    assert!(e.disconnect);
    assert!(e.record.is_none());

    c.score = 12;
    c.last_flag = Some(3);
    c.mutuality = 50;
    let e = apply_user_command(UserCommand::Reset, &mut c);
    assert_eq!(c.score, 0);
    assert_eq!(c.last_flag, Some(3));
    assert_eq!(c.mutuality, 50);
    assert!(!e.disconnect);

    c.flags = 4;
    let e = apply_user_command(UserCommand::Ban, &mut c);
    assert_eq!(c.flags, 4);
    let b = e.record.unwrap();
    assert_eq!(b.kind, "ban");
    assert_eq!(b.reason, "banni via panel");
    assert!(e.disconnect);
}

#[test]
fn delivery_skips_deaf_and_gone_recipients() {
    let d = delivery(&vec![4, 7, 9, 2], &vec![Some(false), Some(true), None, Some(false)]);
    assert_eq!(d.sessions, vec![4, 2]);
    assert_eq!(d.count, 2);
    let d = delivery(&vec![], &vec![]);
    assert!(d.sessions.is_empty());
    assert_eq!(d.count, 0);
}

#[test]
fn heard_log_notes_speakers() {
    const SEC: u64 = 1_000_000_000;
    let mut log = HeardLog::new();
    log.note(5, "a".to_string(), "10.0.0.5".to_string(), 10 * SEC);
    assert_eq!(log.records.len(), 1);
    assert_eq!(log.records[0].secs, 1);
    // Same second: no extra second of speech.
    log.note(5, "a".to_string(), "10.0.0.5".to_string(), 10 * SEC + 500);
    assert_eq!(log.records[0].secs, 1);
    assert_eq!(log.records[0].last, 10 * SEC + 500);
    // A later second counts.
    log.note(5, "a2".to_string(), "10.0.0.6".to_string(), 11 * SEC);
    assert_eq!(log.records.len(), 1);
    assert_eq!(log.records[0].secs, 2);
    assert_eq!(log.records[0].name, "a2");
    assert_eq!(log.records[0].ip, "10.0.0.6");
    log.note(6, "b".to_string(), "10.0.0.7".to_string(), 12 * SEC);
    assert_eq!(log.records.len(), 2);
    assert_eq!(log.records[1].session, 6);
}

#[test]
fn heard_log_full_replaces_the_least_recent() {
    let mut log = HeardLog::new();
    for s in 0..HEARD_CAPACITY as u32 {
        // Session 10 was heard first.
        let last = if s == 10 { 1 } else { 100 + s as u64 };
        log.records.push(HeardRecord { session: s, name: format!("p{}", s), ip: String::new(), last, secs: 1 });
    }
    log.note(999, "new".to_string(), String::new(), 1000);
    assert_eq!(log.records.len(), HEARD_CAPACITY);
    assert!(log.records.iter().all(|r| r.session != 10));
    assert_eq!(log.records[HEARD_CAPACITY - 1].session, 999);
}

#[test]
fn ips_can_be_hidden() {
    assert_eq!(shown_ip("1.2.3.4", false), "1.2.3.4");
    assert_eq!(shown_ip("1.2.3.4", true), "");
}

#[test]
fn sorting_keeps_equal_keys_in_order() {
    let keys: Vec<u128> = vec![2, 1, 2, 1, 2];
    assert_eq!(sort_indices(&keys, false), vec![1, 3, 0, 2, 4]);
    assert_eq!(sort_indices(&keys, true), vec![0, 2, 4, 1, 3]);
}

#[test]
fn ban_list_adds_and_removes() {
    let mut bans = BanList::new();
    let a = bans.add("mute", Some("1.1.1.1".to_string()), Some("alice".to_string()), "alice".to_string(), "mute manuel".to_string(), "10:00:00".to_string());
    let b = bans.add("ban", Some("2.2.2.2".to_string()), Some("bob".to_string()), "bob".to_string(), "banni via panel".to_string(), "10:00:01".to_string());
    let c = bans.add("mute", None, Some("carol".to_string()), "carol".to_string(), "mute manuel".to_string(), "10:00:02".to_string());
    assert_eq!((a, b, c), (1, 2, 3));
    // Only mutes against this address or name go.
    bans.remove_matching("2.2.2.2", "carol", "mute");
    let ids: Vec<u64> = bans.list().iter().map(|e| e.id).collect();
    assert_eq!(ids, vec![1, 2]);
    bans.remove(1);
    let left = bans.list();
    assert_eq!(left.len(), 1);
    assert_eq!(left[0].kind, "ban");
    assert_eq!(left[0].at, "10:00:01");
    // Ids are never reused.
    assert_eq!(bans.add("ban", None, None, "x".to_string(), "r".to_string(), String::new()), 4);
}
