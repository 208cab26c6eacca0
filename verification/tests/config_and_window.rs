use rust_mumble::config::{AnticheatConfig, ConfigUpdate};
use rust_mumble::counters::{reset_client_counters, ClientCounters, HeardRecord};
use rust_mumble::logring::LogRing;
use rust_mumble::window::TargetWindow;

const SEC: u64 = 1_000_000_000;

fn empty_update() -> ConfigUpdate {
    ConfigUpdate {
        enabled: None,
        threshold_pct: None,
        min_recipients: None,
        mutuality_max_pct: None,
        window_secs: None,
        strikes_required: None,
        listen_max: None,
        pos_osc_dist: None,
        pos_osc_max: None,
        pos_far_dist: None,
        pos_far_min: None,
        pos_far_pct: None,
        heard_secs: None,
        action: None,
        webhook: None,
        panel_url: None,
    }
}

#[test]
fn new_config_clamps() {
    let c = AnticheatConfig::new(true, 0, 15, 150, 0, 0, 25, 1);
    assert_eq!(c.threshold_pct, 1);
    assert_eq!(c.mutuality_max_pct, 100);
    assert_eq!(c.window_secs, 1);
    assert_eq!(c.strikes_required, 1);
    assert_eq!(c.min_recipients, 15);
    assert_eq!(c.listen_max, 25);
    assert_eq!(c.action, 1);
    let c = AnticheatConfig::new(false, 500, 0, 30, 10, 3, 0, 0);
    assert_eq!(c.threshold_pct, 100);
    assert_eq!(c.mutuality_max_pct, 30);
    assert_eq!(c.window_secs, 10);
    assert_eq!(c.strikes_required, 3);
    assert!(!c.enabled);
    assert!(c.recent_logs().is_empty());
    assert_eq!(c.heard_secs, 900);
    assert_eq!(c.pos_far_dist, 500);
}

#[test]
fn config_update_applies_and_clamps() {
    let mut c = AnticheatConfig::new(true, 60, 15, 30, 10, 3, 25, 0);
    let started = c.clock.started;
    let mut u = empty_update();
    u.threshold_pct = Some(0);
    u.mutuality_max_pct = Some(101);
    u.window_secs = Some(0);
    u.strikes_required = Some(0);
    u.pos_osc_dist = Some(10);
    u.pos_far_dist = Some(20);
    u.pos_far_pct = Some(0);
    u.heard_secs = Some(99999);
    u.action = Some("kick".to_string());
    u.webhook = Some("https://discord/hook".to_string());
    u.panel_url = Some("   ".to_string());
    u.enabled = Some(false);
    c.apply_update(u);
    // The clock is kept across updates.
    assert_eq!(c.clock.started, started);
    assert!(!c.enabled);
    assert_eq!(c.threshold_pct, 1);
    assert_eq!(c.mutuality_max_pct, 100);
    assert_eq!(c.window_secs, 1);
    assert_eq!(c.strikes_required, 1);
    assert_eq!(c.pos_osc_dist, 50);
    assert_eq!(c.pos_far_dist, 100);
    assert_eq!(c.pos_far_pct, 1);
    assert_eq!(c.heard_secs, 7200);
    assert_eq!(c.action, 2);
    assert_eq!(c.webhook.as_deref(), Some("https://discord/hook"));
    assert_eq!(c.panel_url, None);
    assert_eq!(c.min_recipients, 15);
    assert_eq!(c.listen_max, 25);

    let mut u = empty_update();
    u.pos_osc_dist = Some(0);
    u.heard_secs = Some(1);
    u.webhook = Some(" \t".to_string());
    u.action = Some("bogus".to_string());
    c.apply_update(u);
    assert_eq!(c.pos_osc_dist, 0);
    assert_eq!(c.heard_secs, 10);
    assert_eq!(c.webhook, None);
    assert_eq!(c.action, 0);
    assert_eq!(c.threshold_pct, 1);
}

#[test]
fn log_ring_keeps_the_last_hundred() {
    let mut r = LogRing::new();
    for i in 0..105 {
        r.push(format!("line {}", i));
    }
    let recent = r.recent();
    assert_eq!(recent.len(), 100);
    assert_eq!(recent[0], "line 104");
    assert_eq!(recent[99], "line 5");
    r.clear();
    assert!(r.recent().is_empty());
}

#[test]
fn config_logs_most_recent_first() {
    let mut c = AnticheatConfig::new(true, 60, 15, 30, 10, 3, 25, 0);
    c.push_log("a".to_string());
    c.push_log("b".to_string());
    assert_eq!(c.recent_logs(), vec!["b".to_string(), "a".to_string()]);
    c.clear_logs();
    assert!(c.recent_logs().is_empty());
    assert_eq!(c.threshold_pct, 60);
}

#[test]
fn window_counts_distinct_targets() {
    let mut w = TargetWindow::new();
    assert_eq!(w.len(), 0);
    w.insert(1, 10);
    w.insert(2, 20);
    w.insert(1, 30);
    assert_eq!(w.len(), 2);
    w.retain_fresh(40, 15);
    assert_eq!(w.len(), 1);
    w.retain_fresh(100, 15);
    assert_eq!(w.len(), 0);
    w.insert(5, 200);
    w.clear();
    assert_eq!(w.len(), 0);
}

#[test]
fn window_keeps_entries_stamped_after_now() {
    let mut w = TargetWindow::new();
    w.insert(9, 500);
    w.retain_fresh(100, 0);
    assert_eq!(w.len(), 1);
}

#[test]
fn record_targets_feeds_window() {
    let mut c = AnticheatConfig::new(true, 60, 15, 30, 10, 3, 25, 0);
    // A clock started 100 s ago.
    c.clock.started = std::time::Instant::now() - std::time::Duration::from_secs(100);
    let mut w = TargetWindow::new();
    c.record_targets_at(&mut w, &[1, 2, 3, 2], 0);
    assert_eq!(w.len(), 3);
    c.record_targets_at(&mut w, &[4], 10 * SEC);
    assert_eq!(w.len(), 4);
    c.record_targets_at(&mut w, &[5], 10 * SEC + 1);
    assert_eq!(w.len(), 2);
    // Now is about 100 s after the origin: the older targets have expired.
    c.record_targets(&mut w, &[6, 7]);
    assert_eq!(w.len(), 2);

    let off = AnticheatConfig::new(false, 60, 15, 30, 10, 3, 25, 0);
    let mut w2 = TargetWindow::new();
    off.record_targets_at(&mut w2, &[1, 2], 0);
    assert_eq!(w2.len(), 0);
}

#[test]
fn note_emission_keeps_maximum() {
    let c = AnticheatConfig::new(true, 60, 15, 30, 10, 3, 25, 0);
    let mut k = ClientCounters::new();
    c.note_emission(&mut k, 12);
    c.note_emission(&mut k, 5);
    assert_eq!(k.max_recipients, 12);
    c.note_emission(&mut k, 40);
    assert_eq!(k.max_recipients, 40);
    let off = AnticheatConfig::new(false, 60, 15, 30, 10, 3, 25, 0);
    off.note_emission(&mut k, 99);
    assert_eq!(k.max_recipients, 40);
    // The other counters are left alone.
    k.exempt = true;
    k.last_flag = Some(7);
    k.mutuality = 40;
    c.note_emission(&mut k, 41);
    assert!(k.exempt);
    assert_eq!(k.last_flag, Some(7));
    assert_eq!(k.mutuality, 40);
}

#[test]
fn reset_counters_clears_activity() {
    let mut k = ClientCounters::new();
    k.score = 77;
    k.flags = 3;
    k.strikes = 2;
    k.max_recipients = 50;
    k.pos_jumps = 4;
    k.far_targets = 5;
    k.exempt = true;
    k.mutuality = 12;
    k.last_flag = Some(5);
    k.reach_instant = 9;
    k.listen_count = 2;
    k.window.insert(1, 1);
    k.heard.records.push(HeardRecord { session: 3, name: "x".into(), ip: "1.2.3.4".into(), last: 0, secs: 1 });
    reset_client_counters(&mut k);
    assert_eq!(k.score, 0);
    assert_eq!(k.flags, 0);
    assert_eq!(k.strikes, 0);
    assert_eq!(k.max_recipients, 0);
    assert_eq!(k.pos_jumps, 0);
    assert_eq!(k.far_targets, 0);
    assert_eq!(k.window.len(), 0);
    assert!(k.heard.records.is_empty());
    assert!(k.exempt);
    assert_eq!(k.mutuality, 12);
    assert_eq!(k.last_flag, Some(5));
    assert_eq!(k.reach_instant, 9);
    assert_eq!(k.listen_count, 2);
}
