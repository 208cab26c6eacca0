use rust_mumble::config::AnticheatConfig;
use rust_mumble::counters::{ClientCounters, MUTUALITY_NA};
use rust_mumble::clock::{unix_secs_now, Clock};
use rust_mumble::text::format_hms;
use rust_mumble::sampler::{
    answers_back, connected_sessions, listens_count, reached_sessions, Assessment, ChannelSnapshot,
    ClientSnapshot, Enforcement,
};

const SEC: u64 = 1_000_000_000;

fn channel(id: u32, clients: Vec<u32>, listeners: Vec<u32>) -> ChannelSnapshot {
    ChannelSnapshot { id, clients, listeners }
}

fn client(session: u32, name: &str, chan: u32, chans: Vec<u32>, sessions: Vec<u32>) -> ClientSnapshot {
    ClientSnapshot {
        session,
        name: name.to_string(),
        channel: chan,
        target_channels: chans,
        target_sessions: sessions,
    }
}

/// 21 players, each in its own channel 100 + session; player 1 targets the
/// 20 other channels, nobody targets anybody back.
fn map_wide_talker() -> (Vec<ChannelSnapshot>, Vec<ClientSnapshot>) {
    let mut chs = Vec::new();
    let mut cls = Vec::new();
    for s in 1..=21u32 {
        chs.push(channel(100 + s, vec![s], vec![]));
        let targets = if s == 1 { (102..=121).collect() } else { vec![] };
        let name = if s == 1 { "cheater".to_string() } else { format!("p{}", s) };
        cls.push(client(s, &name, 100 + s, targets, vec![]));
    }
    (chs, cls)
}

fn counters(n: usize) -> Vec<ClientCounters> {
    (0..n).map(|_| ClientCounters::new()).collect()
}

#[test]
fn reach_resolution_excludes_self_and_dedups() {
    let chs = vec![channel(1, vec![1, 2, 3], vec![4]), channel(2, vec![5], vec![2])];
    let me = client(1, "me", 1, vec![1, 2, 1], vec![3, 9, 1]);
    let cls: Vec<ClientSnapshot> = (1..=5u32).map(|s| client(s, "p", 1, vec![], vec![])).collect();
    let connected = connected_sessions(&cls);
    let mut r = reached_sessions(&chs, &cls, &me, &connected);
    r.sort();
    // Session 9 is not connected: it is not reachable.
    assert_eq!(r, vec![2, 3, 4, 5]);
}

#[test]
fn answers_and_listens() {
    let cls = vec![client(1, "a", 10, vec![], vec![2]), client(2, "b", 20, vec![10], vec![]), client(3, "c", 30, vec![], vec![])];
    assert!(answers_back(&cls, &cls[1], 1));
    assert!(answers_back(&cls, &cls[0], 2));
    assert!(!answers_back(&cls, &cls[0], 3));
    assert!(!answers_back(&cls, &cls[0], 42));
    let chs = vec![channel(1, vec![], vec![7, 8]), channel(2, vec![7], vec![7]), channel(3, vec![], vec![])];
    assert_eq!(listens_count(&chs, 7), 2);
    assert_eq!(listens_count(&chs, 8), 1);
    assert_eq!(listens_count(&chs, 9), 0);
}

#[test]
fn map_wide_talker_is_muted_after_three_strikes() {
    let (chs, cls) = map_wide_talker();
    let mut cfg = AnticheatConfig::new(true, 60, 15, 30, 10, 3, 25, 1);
    let mut ctr = counters(cls.len());
    let out = cfg.sample_at(100 * SEC, 3661, &chs, &cls, &mut ctr).enforcements;
    assert!(out.is_empty());
    assert_eq!(ctr[0].reach_instant, 20);
    assert_eq!(ctr[0].mutuality, 0);
    assert_eq!(ctr[0].strikes, 1);
    assert_eq!(ctr[1].reach_instant, 0);
    assert_eq!(ctr[1].mutuality, MUTUALITY_NA);
    assert_eq!(ctr[1].strikes, 0);
    let out = cfg.sample_at(102 * SEC, 3661, &chs, &cls, &mut ctr).enforcements;
    assert!(out.is_empty());
    assert_eq!(ctr[0].strikes, 2);
    let out = cfg.sample_at(104 * SEC, 3661, &chs, &cls, &mut ctr).enforcements;
    assert_eq!(out.len(), 1);
    assert!(matches!(out[0], Enforcement::Mute(1)));
    assert_eq!(ctr[0].strikes, 3);
    assert_eq!(ctr[0].score, 20);
    assert_eq!(ctr[0].flags, 1);
    assert_eq!(ctr[0].last_flag, Some(104 * SEC));
    assert_eq!(
        cfg.recent_logs(),
        vec!["01:01:01 cheater — talk map-wide (mutualité faible) — reach 20/21, mut 0%, listens 0 (score 20) → mute".to_string()]
    );
    // Within the cooldown: the score still grows, but no new flag.
    let out = cfg.sample_at(105 * SEC, 3662, &chs, &cls, &mut ctr).enforcements;
    assert!(out.is_empty());
    assert_eq!(ctr[0].score, 40);
    assert_eq!(ctr[0].flags, 1);
    assert_eq!(cfg.recent_logs().len(), 1);
    // After the cooldown: flagged again.
    let out = cfg.sample_at(107 * SEC, 3663, &chs, &cls, &mut ctr).enforcements;
    assert_eq!(out.len(), 1);
    assert_eq!(ctr[0].flags, 2);
    assert_eq!(ctr[0].score, 60);
    assert_eq!(cfg.recent_logs().len(), 2);
}

#[test]
fn crowd_targeting_each_other_is_not_flagged() {
    let mut chs = Vec::new();
    let mut cls = Vec::new();
    for s in 1..=20u32 {
        chs.push(channel(100 + s, vec![s], vec![]));
        let targets = (101..=120).filter(|c| *c != 100 + s).collect();
        cls.push(client(s, &format!("p{}", s), 100 + s, targets, vec![]));
    }
    let mut cfg = AnticheatConfig::new(true, 60, 15, 30, 10, 1, 25, 2);
    let mut ctr = counters(cls.len());
    let out = cfg.sample_at(SEC, 0, &chs, &cls, &mut ctr).enforcements;
    assert!(out.is_empty());
    for c in &ctr {
        assert_eq!(c.reach_instant, 19);
        assert_eq!(c.mutuality, 100);
        assert_eq!(c.strikes, 0);
    }
    assert!(cfg.recent_logs().is_empty());
}

#[test]
fn small_server_is_never_flagged_for_talking() {
    let mut chs = Vec::new();
    let mut cls = Vec::new();
    for s in 1..=5u32 {
        chs.push(channel(100 + s, vec![s], vec![]));
        let targets = if s == 1 { (102..=105).collect() } else { vec![] };
        cls.push(client(s, "p", 100 + s, targets, vec![]));
    }
    let mut cfg = AnticheatConfig::new(true, 60, 15, 30, 10, 1, 25, 2);
    let mut ctr = counters(cls.len());
    let out = cfg.sample_at(SEC, 0, &chs, &cls, &mut ctr).enforcements;
    assert!(out.is_empty());
    assert_eq!(ctr[0].reach_instant, 4);
    assert_eq!(ctr[0].strikes, 0);
}

#[test]
fn spy_listening_to_many_channels_is_kicked() {
    let mut chs = Vec::new();
    let mut cls = Vec::new();
    for s in 1..=30u32 {
        let listeners = if s == 1 { vec![] } else { vec![1] };
        chs.push(channel(100 + s, vec![s], listeners));
        cls.push(client(s, &format!("p{}", s), 100 + s, vec![], vec![]));
    }
    let mut cfg = AnticheatConfig::new(true, 60, 15, 30, 10, 1, 25, 2);
    let mut ctr = counters(cls.len());
    let out = cfg.sample_at(SEC, 0, &chs, &cls, &mut ctr).enforcements;
    assert_eq!(out.len(), 1);
    assert!(matches!(out[0], Enforcement::Kick(1)));
    assert_eq!(ctr[0].listen_count, 29);
    assert_eq!(ctr[0].score, 29);
    assert_eq!(
        cfg.recent_logs(),
        vec!["00:00:00 p1 — listen map-wide (espionnage) — reach 0/30, mut n/a, listens 29 (score 29) → kick".to_string()]
    );
    // With the detector off nothing happens.
    let mut cfg = AnticheatConfig::new(true, 60, 15, 30, 10, 1, 0, 2);
    let mut ctr = counters(cls.len());
    assert!(cfg.sample_at(SEC, 0, &chs, &cls, &mut ctr).enforcements.is_empty());
    assert_eq!(ctr[0].strikes, 0);
}

#[test]
fn exempt_client_is_logged_but_not_punished() {
    let (chs, cls) = map_wide_talker();
    let mut cfg = AnticheatConfig::new(true, 60, 15, 30, 10, 1, 25, 2);
    let mut ctr = counters(cls.len());
    ctr[0].exempt = true;
    let out = cfg.sample_at(SEC, 0, &chs, &cls, &mut ctr).enforcements;
    assert!(out.is_empty());
    assert_eq!(ctr[0].flags, 1);
    assert_eq!(
        cfg.recent_logs(),
        vec!["00:00:00 cheater — talk map-wide (mutualité faible) — reach 20/21, mut 0%, listens 0 (score 20) → exempt".to_string()]
    );
}

#[test]
fn log_action_only_logs() {
    let (chs, cls) = map_wide_talker();
    let mut cfg = AnticheatConfig::new(true, 60, 15, 30, 10, 1, 25, 0);
    let mut ctr = counters(cls.len());
    let out = cfg.sample_at(SEC, 0, &chs, &cls, &mut ctr).enforcements;
    assert!(out.is_empty());
    assert_eq!(ctr[0].flags, 1);
    assert!(cfg.recent_logs()[0].ends_with("→ log"));
}

#[test]
fn strikes_reset_when_clean() {
    let (chs, mut cls) = map_wide_talker();
    let mut cfg = AnticheatConfig::new(true, 60, 15, 30, 10, 5, 25, 1);
    let mut ctr = counters(cls.len());
    cfg.sample_at(SEC, 0, &chs, &cls, &mut ctr).enforcements;
    cfg.sample_at(2 * SEC, 0, &chs, &cls, &mut ctr).enforcements;
    assert_eq!(ctr[0].strikes, 2);
    cls[0].target_channels.clear();
    cfg.sample_at(3 * SEC, 0, &chs, &cls, &mut ctr).enforcements;
    assert_eq!(ctr[0].strikes, 0);
}

#[test]
fn window_reach_catches_chunking() {
    // Player 1 cycles through small target sets; the window remembers them all.
    let mut chs = Vec::new();
    let mut cls = Vec::new();
    for s in 1..=21u32 {
        chs.push(channel(100 + s, vec![s], vec![]));
        cls.push(client(s, &format!("p{}", s), 100 + s, vec![], vec![]));
    }
    cls[0].target_channels = vec![102, 103];
    let mut cfg = AnticheatConfig::new(true, 60, 15, 30, 10, 1, 25, 1);
    let mut ctr = counters(cls.len());
    let keys: Vec<u64> = (102u64..=121).collect();
    cfg.record_targets_at(&mut ctr[0].window, &keys, 5 * SEC);
    let out = cfg.sample_at(6 * SEC, 0, &chs, &cls, &mut ctr).enforcements;
    assert_eq!(ctr[0].reach_instant, 2);
    assert_eq!(ctr[0].reach_window, 20);
    assert_eq!(ctr[0].mutuality, 0);
    assert_eq!(out.len(), 1);
    // Once the window has expired, the chunking is forgotten.
    let mut ctr2 = counters(cls.len());
    cfg.record_targets_at(&mut ctr2[0].window, &keys, 5 * SEC);
    let out = cfg.sample_at(16 * SEC, 0, &chs, &cls, &mut ctr2).enforcements;
    assert_eq!(ctr2[0].reach_window, 0);
    assert!(out.is_empty());
}

#[test]
fn disabled_or_empty_sampling_changes_nothing() {
    let (chs, cls) = map_wide_talker();
    let mut cfg = AnticheatConfig::new(false, 60, 15, 30, 10, 1, 25, 1);
    let mut ctr = counters(cls.len());
    let out = cfg.sample_at(SEC, 0, &chs, &cls, &mut ctr).enforcements;
    assert!(out.is_empty());
    assert_eq!(ctr[0].strikes, 0);
    assert_eq!(ctr[0].mutuality, MUTUALITY_NA);
    let mut cfg = AnticheatConfig::new(true, 60, 15, 30, 10, 1, 25, 1);
    let mut none: Vec<ClientCounters> = Vec::new();
    assert!(cfg.sample_at(SEC, 0, &chs, &Vec::new(), &mut none).enforcements.is_empty());
    assert!(cfg.recent_logs().is_empty());
    let mut ctr = counters(cls.len());
    let out = cfg.sample(&chs, &cls, &mut ctr).enforcements;
    assert_eq!(out.len(), 1);
}

/// `n` players, each in its own channel 100 + session; player 1 targets the
/// channels of players `2..=1 + reached`, and each player in `answer` targets
/// the channel of player 1 back.
fn targeted(n: u32, reached: u32, answer: &[u32]) -> (Vec<ChannelSnapshot>, Vec<ClientSnapshot>) {
    let mut chs = Vec::new();
    let mut cls = Vec::new();
    for s in 1..=n {
        chs.push(channel(100 + s, vec![s], vec![]));
        let targets = if s == 1 {
            (102..102 + reached).collect()
        } else if answer.contains(&s) {
            vec![101]
        } else {
            vec![]
        };
        cls.push(client(s, &format!("p{}", s), 100 + s, targets, vec![]));
    }
    (chs, cls)
}

#[test]
fn reach_of_exactly_the_threshold_is_not_high() {
    // 6 of 10 players is not more than 60 %.
    let (chs, cls) = targeted(10, 6, &[]);
    let mut cfg = AnticheatConfig::new(true, 60, 6, 30, 10, 1, 0, 1);
    let mut ctr = counters(cls.len());
    let out = cfg.sample_at(SEC, 0, &chs, &cls, &mut ctr);
    assert_eq!(ctr[0].reach_instant, 6);
    assert_eq!(ctr[0].mutuality, 0);
    assert_eq!(ctr[0].strikes, 0);
    assert!(out.enforcements.is_empty());
    // 7 of 10 is.
    let (chs, cls) = targeted(10, 7, &[]);
    let mut ctr = counters(cls.len());
    let out = cfg.sample_at(SEC, 0, &chs, &cls, &mut ctr);
    assert_eq!(ctr[0].strikes, 1);
    assert!(matches!(out.enforcements[..], [Enforcement::Mute(1)]));
}

#[test]
fn mutuality_of_exactly_the_maximum_is_not_low() {
    // 3 of the 10 reached players answer: 30 %, not under 30 %.
    let (chs, cls) = targeted(11, 10, &[2, 3, 4]);
    let mut cfg = AnticheatConfig::new(true, 60, 5, 30, 10, 1, 0, 1);
    let mut ctr = counters(cls.len());
    let out = cfg.sample_at(SEC, 0, &chs, &cls, &mut ctr);
    assert_eq!(ctr[0].reach_instant, 10);
    assert_eq!(ctr[0].mutuality, 30);
    assert_eq!(ctr[0].strikes, 0);
    assert!(out.enforcements.is_empty());
    // With a maximum of 31 %, 30 % is low.
    let mut cfg = AnticheatConfig::new(true, 60, 5, 31, 10, 1, 0, 1);
    let mut ctr = counters(cls.len());
    let out = cfg.sample_at(SEC, 0, &chs, &cls, &mut ctr);
    assert_eq!(ctr[0].strikes, 1);
    assert_eq!(out.enforcements.len(), 1);
}

#[test]
fn absent_sessions_are_not_reached() {
    let chs = vec![channel(101, vec![1], vec![])];
    let cls = vec![client(1, "p1", 101, vec![], vec![42])];
    let mut cfg = AnticheatConfig::new(true, 60, 1, 30, 10, 1, 0, 1);
    let mut ctr = counters(cls.len());
    cfg.sample_at(SEC, 0, &chs, &cls, &mut ctr);
    assert_eq!(ctr[0].reach_instant, 0);
    assert_eq!(ctr[0].mutuality, MUTUALITY_NA);
}

#[test]
fn a_clean_evaluation_breaks_the_run_of_strikes() {
    let (chs, talk) = map_wide_talker();
    let (_, mut quiet) = map_wide_talker();
    quiet[0].target_channels.clear();
    let mut cfg = AnticheatConfig::new(true, 60, 15, 30, 10, 3, 25, 1);
    let mut ctr = counters(talk.len());
    assert!(cfg.sample_at(SEC, 0, &chs, &talk, &mut ctr).enforcements.is_empty());
    assert!(cfg.sample_at(2 * SEC, 0, &chs, &talk, &mut ctr).enforcements.is_empty());
    assert!(cfg.sample_at(3 * SEC, 0, &chs, &quiet, &mut ctr).enforcements.is_empty());
    assert!(cfg.sample_at(4 * SEC, 0, &chs, &talk, &mut ctr).enforcements.is_empty());
    assert!(cfg.sample_at(5 * SEC, 0, &chs, &talk, &mut ctr).enforcements.is_empty());
    assert_eq!(ctr[0].strikes, 2);
    assert_eq!(ctr[0].flags, 0);
    assert_eq!(ctr[0].score, 0);
    let out = cfg.sample_at(6 * SEC, 0, &chs, &talk, &mut ctr);
    assert_eq!(ctr[0].strikes, 3);
    assert_eq!(out.enforcements.len(), 1);
}

#[test]
fn ban_action_asks_for_a_ban() {
    let (chs, cls) = map_wide_talker();
    let mut cfg = AnticheatConfig::new(true, 60, 15, 30, 10, 1, 25, 3);
    let mut ctr = counters(cls.len());
    let out = cfg.sample_at(SEC, 0, &chs, &cls, &mut ctr);
    assert!(matches!(out.enforcements[..], [Enforcement::Ban(1)]));
    assert!(cfg.recent_logs()[0].ends_with("→ ban"));
}

#[test]
fn detections_are_notified_when_a_webhook_is_set() {
    let (chs, cls) = map_wide_talker();
    let mut cfg = AnticheatConfig::new(true, 60, 15, 30, 10, 1, 25, 1);
    let mut ctr = counters(cls.len());
    let out = cfg.sample_at(SEC, 3661, &chs, &cls, &mut ctr);
    assert!(out.notifications.is_empty());
    let mut cfg = AnticheatConfig::new(true, 60, 15, 30, 10, 1, 25, 1);
    cfg.webhook = Some("https://discord.example/hook".to_string());
    let mut ctr = counters(cls.len());
    let out = cfg.sample_at(SEC, 3661, &chs, &cls, &mut ctr);
    assert_eq!(
        out.notifications,
        vec!["<t:3661:F> 01:01:01 cheater — talk map-wide (mutualité faible) — reach 20/21, mut 0%, listens 0 (score 20) → mute".to_string()]
    );
    // Within the cooldown there is no new notice.
    let out = cfg.sample_at(2 * SEC, 3662, &chs, &cls, &mut ctr);
    assert!(out.notifications.is_empty());
}

#[test]
fn sample_uses_the_clock_and_the_time_of_day() {
    let (chs, cls) = map_wide_talker();
    let mut cfg = AnticheatConfig::new(true, 60, 15, 30, 10, 1, 25, 1);
    // A clock started 100 s ago.
    cfg.clock = Clock { started: std::time::Instant::now() - std::time::Duration::from_secs(100) };
    let mut ctr = counters(cls.len());
    let before = cfg.clock.now_nanos();
    assert!(before >= 100 * SEC);
    let secs_before = unix_secs_now();
    let out = cfg.sample(&chs, &cls, &mut ctr);
    let secs_after = unix_secs_now();
    assert_eq!(out.enforcements.len(), 1);
    assert!(ctr[0].last_flag.unwrap() >= before);
    let line = &cfg.recent_logs()[0];
    assert!(line.starts_with(&format_hms(secs_before)) || line.starts_with(&format_hms(secs_after)));
}

#[test]
fn flag_respects_the_cooldown() {
    let mut cfg = AnticheatConfig::new(true, 60, 15, 30, 10, 1, 25, 2);
    let me = client(7, "p7", 101, vec![], vec![]);
    let a = Assessment { reach_instant: 20, reach_window: 3, mutuality: 0, listens: 0, talk_cheat: true, spy: false };
    let mut c = ClientCounters::new();
    let (e, notice) = cfg.flag(10 * SEC, 0, &me, &mut c, &a, 21);
    assert!(matches!(e, Some(Enforcement::Kick(7))));
    assert!(notice.is_none());
    assert_eq!(c.flags, 1);
    assert_eq!(c.last_flag, Some(10 * SEC));
    // Less than three seconds later: nothing happens.
    let (e, _) = cfg.flag(12 * SEC, 0, &me, &mut c, &a, 21);
    assert!(e.is_none());
    assert_eq!(c.flags, 1);
    assert_eq!(c.last_flag, Some(10 * SEC));
    assert_eq!(cfg.recent_logs().len(), 1);
    // Three seconds later: flagged again.
    let (e, _) = cfg.flag(13 * SEC, 0, &me, &mut c, &a, 21);
    assert!(e.is_some());
    assert_eq!(c.flags, 2);
}
