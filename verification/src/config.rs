use vstd::prelude::*;
use crate::seqs::lemma_prefix_contains;
use vstd::string::*;

use crate::actions::action_of;
use crate::actions::parse_action;
use crate::clock::{Clock, NANOS_PER_SEC};
use crate::counters::ClientCounters;
use crate::logring::{ring_push, texts, LogRing, LOG_CAPACITY};
use crate::window::{fresh_part, stamped, TargetWindow};

verus! {

/// `v` brought into `lo..=hi` (for `lo <= hi`).
pub open spec fn clamped(v: u32, lo: u32, hi: u32) -> u32 {
    if v < lo { lo } else if v > hi { hi } else { v }
}

/// The peak number of recipients after an emission to `recipients` players
/// (kept as it was while the anticheat is disabled).
pub open spec fn peak_after(enabled: bool, peak: u32, recipients: u32) -> u32 {
    if enabled && recipients > peak {
        recipients
    } else {
        peak
    }
}

/// The larger of `v` and `lo`.
pub open spec fn at_least(v: u32, lo: u32) -> u32 {
    if v < lo { lo } else { v }
}

/// The smaller of `v` and `hi`.
pub open spec fn at_most(v: u32, hi: u32) -> u32 {
    if v > hi { hi } else { v }
}

/// Whether `c` is a white-space character (Unicode `White_Space`).
pub open spec fn is_white(c: char) -> bool {
    let u = c as u32;
    ||| 0x9 <= u <= 0xD
    ||| u == 0x20
    ||| u == 0x85
    ||| u == 0xA0
    ||| u == 0x1680
    ||| 0x2000 <= u <= 0x200A
    ||| u == 0x2028
    ||| u == 0x2029
    ||| u == 0x202F
    ||| u == 0x205F
    ||| u == 0x3000
}

/// Whether a text is empty once white space is trimmed from both ends.
pub open spec fn is_blank(s: Seq<char>) -> bool {
    forall|i: int| 0 <= i < s.len() ==> is_white(#[trigger] s[i])
}

/// Whether `s` trims to nothing.
pub fn blank(s: &str) -> (b: bool)
    ensures
        b == is_blank(s@),
{
    let n = s.unicode_len();
    let mut i: usize = 0;
    while i < n
        invariant
            n == s@.len(),
            i <= n,
            forall|j: int| 0 <= j < i ==> is_white(#[trigger] s@[j]),
        decreases n - i,
    {
        let c = s.get_char(i);
        let u = c as u32;
        let white = (0x9 <= u && u <= 0xD) || u == 0x20 || u == 0x85 || u == 0xA0 || u == 0x1680
            || (0x2000 <= u && u <= 0x200A) || u == 0x2028 || u == 0x2029 || u == 0x202F || u
            == 0x205F || u == 0x3000;
        if !white {
            assert(!is_white(s@[i as int]));
            return false;
        }
        i = i + 1;
    }
    true
}

fn clamp_u32(v: u32, lo: u32, hi: u32) -> (r: u32)
    requires
        lo <= hi,
    ensures
        r == clamped(v, lo, hi),
{
    if v < lo { lo } else if v > hi { hi } else { v }
}

/// The current value, or the update's value brought into `lo..=hi`.
fn pick(cur: u32, upd: Option<u32>, lo: u32, hi: u32) -> (r: u32)
    requires
        lo <= hi,
    ensures
        r == match upd {
            Some(v) => clamped(v, lo, hi),
            None => cur,
        },
{
    match upd {
        Some(v) => clamp_u32(v, lo, hi),
        None => cur,
    }
}

/// The current oscillation distance, or the update's value (0, or at least 50).
fn pick_osc_dist(cur: u32, upd: Option<u32>) -> (r: u32)
    ensures
        r == updated(cur, upd, |v: u32| osc_dist(v)),
{
    match upd {
        Some(v) => if v == 0 { 0 } else if v < 50 { 50 } else { v },
        None => cur,
    }
}

/// The current action, or the one that the update names.
fn pick_action(cur: u8, upd: Option<String>) -> (r: u8)
    ensures
        r == match upd {
            Some(a) => action_of(a@),
            None => cur,
        },
{
    match upd {
        Some(a) => parse_action(a.as_str()),
        None => cur,
    }
}

/// The current text setting, or the update's text (a blank one clears it).
fn pick_text(cur: Option<String>, upd: Option<String>) -> (r: Option<String>)
    ensures
        r == updated_text(cur, upd),
{
    match upd {
        Some(w) => if blank(w.as_str()) { None } else { Some(w) },
        None => cur,
    }
}

/// A partial update of the configuration, as posted by the panel: every field
/// that is present replaces the current value, brought into its allowed range.
pub struct ConfigUpdate {
    pub enabled: Option<bool>,
    pub threshold_pct: Option<u32>,
    pub min_recipients: Option<u32>,
    pub mutuality_max_pct: Option<u32>,
    pub window_secs: Option<u32>,
    pub strikes_required: Option<u32>,
    pub listen_max: Option<u32>,
    pub pos_osc_dist: Option<u32>,
    pub pos_osc_max: Option<u32>,
    pub pos_far_dist: Option<u32>,
    pub pos_far_min: Option<u32>,
    pub pos_far_pct: Option<u32>,
    pub heard_secs: Option<u32>,
    pub action: Option<String>,
    pub webhook: Option<String>,
    pub panel_url: Option<String>,
}

/// The new value of a numeric setting: the update's value passed through `f`, or the current one.
pub open spec fn updated(cur: u32, upd: Option<u32>, f: spec_fn(u32) -> u32) -> u32 {
    match upd {
        Some(v) => f(v),
        None => cur,
    }
}

/// The new value of a text setting: a blank text clears it.
pub open spec fn updated_text(cur: Option<String>, upd: Option<String>) -> Option<String> {
    match upd {
        Some(w) => if is_blank(w@) { None } else { Some(w) },
        None => cur,
    }
}

/// The new proximity-oscillation distance: 0 switches the detector off,
/// anything else is at least 50 m.
pub open spec fn osc_dist(v: u32) -> u32 {
    if v == 0 { 0 } else { at_least(v, 50) }
}

/// Anticheat configuration, adjustable while the server runs.
pub struct AnticheatConfig {
    pub enabled: bool,
    /// A player reaching more than this percentage of the connected players has a "high reach".
    pub threshold_pct: u32,
    /// Below this number of recipients a player is never flagged for talking.
    pub min_recipients: u32,
    /// High reach with a mutuality under this percentage is a map-wide talk cheat.
    pub mutuality_max_pct: u32,
    /// Window (seconds) over which distinct targets are counted.
    pub window_secs: u32,
    /// Consecutive suspicious evaluations needed before acting.
    pub strikes_required: u32,
    /// Listening to more channels than this is map-wide spying; 0 switches it off.
    pub listen_max: u32,
    /// Action on detection: `ACTION_LOG`, `ACTION_MUTE`, `ACTION_KICK` or `ACTION_BAN`.
    pub action: u8,
    /// Distance (m) separating two distinct places for the oscillation tracker; 0 = off.
    pub pos_osc_dist: u32,
    /// Returns to an earlier place tolerated before flagging.
    pub pos_osc_max: u32,
    /// Distance (m) beyond which a proximity target is too far.
    pub pos_far_dist: u32,
    /// Number of too-far targets before flagging; 0 = off.
    pub pos_far_min: u32,
    /// Percentage of too-far targets before flagging.
    pub pos_far_pct: u32,
    /// Retention (seconds) of the "who spoke to this player" lists.
    pub heard_secs: u32,
    /// Discord webhook notified of each detection.
    pub webhook: Option<String>,
    /// Panel URL put in the notifications.
    pub panel_url: Option<String>,
    /// The recent detections shown by the panel.
    pub logs: LogRing,
    /// The clock against which windows, cooldowns and log times are measured.
    pub clock: Clock,
}

impl AnticheatConfig {
    /// Every setting lies in the range that the constructor and the updates enforce.
    pub open spec fn wf(&self) -> bool {
        &&& 1 <= self.threshold_pct <= 100
        &&& self.mutuality_max_pct <= 100
        &&& self.window_secs >= 1
        &&& self.strikes_required >= 1
        &&& (self.pos_osc_dist == 0 || self.pos_osc_dist >= 50)
        &&& self.pos_far_dist >= 100
        &&& 1 <= self.pos_far_pct <= 100
        &&& 10 <= self.heard_secs <= 7200
    }

    /// The panel's event log, oldest first.
    pub open spec fn log(&self) -> Seq<Seq<char>> {
        self.logs@
    }

    /// A configuration with the given settings, brought into range; the
    /// position settings start at the panel's defaults, the log is empty and
    /// the clock starts now.
    pub fn new(
        enabled: bool,
        threshold_pct: u32,
        min_recipients: u32,
        mutuality_max_pct: u32,
        window_secs: u32,
        strikes_required: u32,
        listen_max: u32,
        action: u8,
    ) -> (c: AnticheatConfig)
        ensures
            c.wf(),
            c.enabled == enabled,
            c.threshold_pct == clamped(threshold_pct, 1, 100),
            c.min_recipients == min_recipients,
            c.mutuality_max_pct == at_most(mutuality_max_pct, 100),
            c.window_secs == at_least(window_secs, 1),
            c.strikes_required == at_least(strikes_required, 1),
            c.listen_max == listen_max,
            c.action == action,
            c.pos_osc_dist == 300,
            c.pos_osc_max == 0,
            c.pos_far_dist == 500,
            c.pos_far_min == 15,
            c.pos_far_pct == 70,
            c.heard_secs == 900,
            c.webhook is None,
            c.panel_url is None,
            c.log() == Seq::<Seq<char>>::empty(),
    {
        AnticheatConfig {
            enabled,
            threshold_pct: clamp_u32(threshold_pct, 1, 100),
            min_recipients,
            mutuality_max_pct: if mutuality_max_pct > 100 { 100 } else { mutuality_max_pct },
            window_secs: if window_secs < 1 { 1 } else { window_secs },
            strikes_required: if strikes_required < 1 { 1 } else { strikes_required },
            listen_max,
            action,
            pos_osc_dist: 300,
            pos_osc_max: 0,
            pos_far_dist: 500,
            pos_far_min: 15,
            pos_far_pct: 70,
            heard_secs: 900,
            webhook: None,
            panel_url: None,
            logs: LogRing::new(),
            clock: Clock::start(),
        }
    }

    /// The recent events for the panel, most recent first.
    pub fn recent_logs(&self) -> (r: Vec<String>)
        ensures
            texts(r@) == self.log().reverse(),
            r@.len() <= LOG_CAPACITY,
    {
        self.logs.recent()
    }

    /// Appends an event to the panel's log.
    pub fn push_log(&mut self, line: String)
        ensures
            final(self).log() == ring_push(old(self).log(), line@),
            final(self).log().len() <= LOG_CAPACITY,
            final(self).settings_eq(old(self)),
    {
        self.logs.push(line);
    }

    /// Empties the panel's log.
    pub fn clear_logs(&mut self)
        ensures
            final(self).log() == Seq::<Seq<char>>::empty(),
            final(self).settings_eq(old(self)),
    {
        self.logs.clear();
    }

    /// Every setting of `self`, and its clock, equals that of `other` (the logs may differ).
    pub open spec fn settings_eq(&self, other: &AnticheatConfig) -> bool {
        &&& self.clock == other.clock
        &&& self.enabled == other.enabled
        &&& self.threshold_pct == other.threshold_pct
        &&& self.min_recipients == other.min_recipients
        &&& self.mutuality_max_pct == other.mutuality_max_pct
        &&& self.window_secs == other.window_secs
        &&& self.strikes_required == other.strikes_required
        &&& self.listen_max == other.listen_max
        &&& self.action == other.action
        &&& self.pos_osc_dist == other.pos_osc_dist
        &&& self.pos_osc_max == other.pos_osc_max
        &&& self.pos_far_dist == other.pos_far_dist
        &&& self.pos_far_min == other.pos_far_min
        &&& self.pos_far_pct == other.pos_far_pct
        &&& self.heard_secs == other.heard_secs
        &&& self.webhook == other.webhook
        &&& self.panel_url == other.panel_url
    }

    /// Applies a partial update posted by the panel.
    pub fn apply_update(&mut self, update: ConfigUpdate)
        ensures
            final(self).enabled == match update.enabled {
                Some(e) => e,
                None => old(self).enabled,
            },
            final(self).threshold_pct == updated(
                old(self).threshold_pct,
                update.threshold_pct,
                |v: u32| clamped(v, 1, 100),
            ),
            final(self).min_recipients == updated(
                old(self).min_recipients,
                update.min_recipients,
                |v: u32| v,
            ),
            final(self).mutuality_max_pct == updated(
                old(self).mutuality_max_pct,
                update.mutuality_max_pct,
                |v: u32| at_most(v, 100),
            ),
            final(self).window_secs == updated(
                old(self).window_secs,
                update.window_secs,
                |v: u32| at_least(v, 1),
            ),
            final(self).strikes_required == updated(
                old(self).strikes_required,
                update.strikes_required,
                |v: u32| at_least(v, 1),
            ),
            final(self).listen_max == updated(old(self).listen_max, update.listen_max, |v: u32| v),
            final(self).pos_osc_dist == updated(
                old(self).pos_osc_dist,
                update.pos_osc_dist,
                |v: u32| osc_dist(v),
            ),
            final(self).pos_osc_max == updated(
                old(self).pos_osc_max,
                update.pos_osc_max,
                |v: u32| v,
            ),
            final(self).pos_far_dist == updated(
                old(self).pos_far_dist,
                update.pos_far_dist,
                |v: u32| at_least(v, 100),
            ),
            final(self).pos_far_min == updated(
                old(self).pos_far_min,
                update.pos_far_min,
                |v: u32| v,
            ),
            final(self).pos_far_pct == updated(
                old(self).pos_far_pct,
                update.pos_far_pct,
                |v: u32| clamped(v, 1, 100),
            ),
            final(self).heard_secs == updated(
                old(self).heard_secs,
                update.heard_secs,
                |v: u32| clamped(v, 10, 7200),
            ),
            final(self).action == match update.action {
                Some(a) => action_of(a@),
                None => old(self).action,
            },
            final(self).webhook == updated_text(old(self).webhook, update.webhook),
            final(self).panel_url == updated_text(old(self).panel_url, update.panel_url),
            final(self).log() == old(self).log(),
            final(self).clock == old(self).clock,
            old(self).wf() ==> final(self).wf(),
    {
        self.enabled = match update.enabled {
            Some(e) => e,
            None => self.enabled,
        };
        self.threshold_pct = pick(self.threshold_pct, update.threshold_pct, 1, 100);
        self.min_recipients = pick(self.min_recipients, update.min_recipients, 0, u32::MAX);
        self.mutuality_max_pct = pick(self.mutuality_max_pct, update.mutuality_max_pct, 0, 100);
        self.window_secs = pick(self.window_secs, update.window_secs, 1, u32::MAX);
        self.strikes_required = pick(self.strikes_required, update.strikes_required, 1, u32::MAX);
        self.listen_max = pick(self.listen_max, update.listen_max, 0, u32::MAX);
        self.pos_osc_dist = pick_osc_dist(self.pos_osc_dist, update.pos_osc_dist);
        self.pos_osc_max = pick(self.pos_osc_max, update.pos_osc_max, 0, u32::MAX);
        self.pos_far_dist = pick(self.pos_far_dist, update.pos_far_dist, 100, u32::MAX);
        self.pos_far_min = pick(self.pos_far_min, update.pos_far_min, 0, u32::MAX);
        self.pos_far_pct = pick(self.pos_far_pct, update.pos_far_pct, 1, 100);
        self.heard_secs = pick(self.heard_secs, update.heard_secs, 10, 7200);
        self.action = pick_action(self.action, update.action);
        self.webhook = pick_text(self.webhook.take(), update.webhook);
        self.panel_url = pick_text(self.panel_url.take(), update.panel_url);
    }

    /// The window length in nanoseconds (at least one second).
    pub open spec fn window_span(&self) -> u64 {
        (at_least(self.window_secs, 1) * NANOS_PER_SEC) as u64
    }

    pub fn window_span_exec(&self) -> (s: u64)
        ensures
            s == self.window_span(),
    {
        let w: u64 = if self.window_secs < 1 { 1 } else { self.window_secs as u64 };
        w * NANOS_PER_SEC
    }

    /// Feeds the sliding window of a client with the targets it just
    /// registered, at time `now`, and drops targets older than the window.
    /// Does nothing while the anticheat is disabled.
    pub fn record_targets_at(&self, window: &mut TargetWindow, keys: &[u64], now: u64)
        ensures
            final(window)@ == if self.enabled {
                fresh_part(stamped(old(window)@, keys@, now), now, self.window_span())
            } else {
                old(window)@
            },
    {
        if !self.enabled {
            return;
        }
        let span = self.window_span_exec();
        let ghost start = window@;
        let n = keys.len();
        let mut i: usize = 0;
        while i < n
            invariant
                n == keys@.len(),
                i <= n,
                window@ == stamped(start, keys@.subrange(0, i as int), now),
            decreases n - i,
        {
            window.insert(keys[i], now);
            proof {
                let after = keys@.subrange(0, i + 1);
                lemma_prefix_contains(keys@, i as int);
                assert(window@ =~= stamped(start, after, now));
            }
            i = i + 1;
        }
        assert(keys@.subrange(0, n as int) =~= keys@);
        window.retain_fresh(now, span);
    }

    /// Feeds the sliding window of a client with the targets it just
    /// registered, stamped with the current time of the configuration's clock.
    pub fn record_targets(&self, window: &mut TargetWindow, keys: &[u64])
        ensures
            self.enabled ==> exists|now: u64|
                final(window)@ == fresh_part(stamped(old(window)@, keys@, now), now, self.window_span()),
            !self.enabled ==> final(window)@ == old(window)@,
    {
        let now = self.clock.now_nanos();
        self.record_targets_at(window, keys, now);
    }

    /// Hot voice path: remembers the largest number of recipients reached.
    pub fn note_emission(&self, client: &mut ClientCounters, recipients: u32)
        ensures
            final(client).max_recipients == peak_after(self.enabled, old(client).max_recipients, recipients),
            final(client).window@ == old(client).window@,
            final(client).reach_instant == old(client).reach_instant,
            final(client).reach_window == old(client).reach_window,
            final(client).mutuality == old(client).mutuality,
            final(client).listen_count == old(client).listen_count,
            final(client).strikes == old(client).strikes,
            final(client).score == old(client).score,
            final(client).flags == old(client).flags,
            final(client).last_flag == old(client).last_flag,
            final(client).exempt == old(client).exempt,
            final(client).pos_jumps == old(client).pos_jumps,
            final(client).far_targets == old(client).far_targets,
            final(client).heard == old(client).heard,
    {
        if !self.enabled {
            return;
        }
        if recipients > client.max_recipients {
            client.max_recipients = recipients;
        }
    }
}

} // verus!
