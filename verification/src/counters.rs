use vstd::prelude::*;

use crate::clock::NANOS_PER_SEC;
use crate::window::TargetWindow;

verus! {

/// Someone who spoke to a client: who, from where, when last, and for how long.
pub struct HeardRecord {
    pub session: u32,
    pub name: String,
    pub ip: String,
    /// Time of the last voice packet heard from this speaker (nanoseconds).
    pub last: u64,
    /// Seconds of speech heard in total.
    pub secs: u32,
}

/// The speakers recently heard by a client.
pub struct HeardLog {
    pub records: Vec<HeardRecord>,
}

impl HeardLog {
    /// An empty log.
    pub fn new() -> (h: HeardLog)
        ensures
            h.records@.len() == 0,
    {
        HeardLog { records: Vec::new() }
    }

    /// Forgets every speaker.
    pub fn clear(&mut self)
        ensures
            final(self).records@.len() == 0,
    {
        self.records = Vec::new();
    }

    /// Notes that `session` (named `name`, connected from `ip`) was heard at
    /// `now`. A known speaker gets its name, address and time refreshed, and
    /// one more second of speech when `now` falls in a later second than its
    /// last packet. A new speaker comes with one second of speech, in place of
    /// the least recently heard one when the log is full.
    pub fn note(&mut self, session: u32, name: String, ip: String, now: u64)
        requires
            old(self).records@.len() <= HEARD_CAPACITY,
        ensures
            final(self).records@.len() <= HEARD_CAPACITY,
            ({
                let rs = old(self).records@;
                match first_with_session(rs, session) {
                    Some(k) => final(self).records@ == rs.update(
                        k,
                        HeardRecord {
                            session,
                            name,
                            ip,
                            last: now,
                            secs: if new_second(rs[k].last, now) {
                                vstd::wrapping::u32_specs::wrapping_add(rs[k].secs, 1)
                            } else {
                                rs[k].secs
                            },
                        },
                    ),
                    None => {
                        let fresh = HeardRecord { session, name, ip, last: now, secs: 1 };
                        if rs.len() < HEARD_CAPACITY {
                            final(self).records@ == rs.push(fresh)
                        } else {
                            final(self).records@ == rs.remove(least_recent(rs)).push(fresh)
                        }
                    },
                }
            }),
    {
        let n = self.records.len();
        let mut i: usize = 0;
        while i < n
            invariant
                n == self.records@.len(),
                self.records@ == old(self).records@,
                n <= HEARD_CAPACITY,
                i <= n,
                forall|j: int| 0 <= j < i ==> #[trigger] self.records@[j].session != session,
            decreases n - i,
        {
            if self.records[i].session == session {
                let before = self.records[i].last;
                let secs = self.records[i].secs;
                let ticked = now / NANOS_PER_SEC > before / NANOS_PER_SEC;
                let rec = HeardRecord {
                    session,
                    name,
                    ip,
                    last: now,
                    secs: if ticked { secs.wrapping_add(1) } else { secs },
                };
                proof {
                    assert(first_with_session(self.records@, session) == Some(i as int));
                }
                self.records.set(i, rec);
                return;
            }
            i = i + 1;
        }
        proof {
            assert(first_with_session(self.records@, session) is None);
        }
        let fresh = HeardRecord { session, name, ip, last: now, secs: 1 };
        if n < HEARD_CAPACITY {
            self.records.push(fresh);
            return;
        }
        let mut k: usize = 0;
        let mut j: usize = 1;
        while j < n
            invariant
                n == self.records@.len(),
                self.records@ == old(self).records@,
                n == HEARD_CAPACITY,
                1 <= j <= n,
                k < j,
                forall|x: int| 0 <= x < j ==> self.records@[k as int].last <= #[trigger] self.records@[x].last,
                forall|x: int| 0 <= x < k ==> self.records@[k as int].last < #[trigger] self.records@[x].last,
            decreases n - j,
        {
            if self.records[j].last < self.records[k].last {
                k = j;
            }
            j = j + 1;
        }
        proof {
            assert(is_least_recent(self.records@, k as int));
            lemma_least_recent_unique(self.records@, k as int);
        }
        self.records.remove(k);
        self.records.push(fresh);
    }
}

/// Speakers remembered per client.
pub const HEARD_CAPACITY: usize = 64;

/// Whether `now` falls in a later second than `last`.
pub open spec fn new_second(last: u64, now: u64) -> bool {
    now / NANOS_PER_SEC > last / NANOS_PER_SEC
}

/// The first position of a record of `session`, if any.
pub open spec fn first_with_session(rs: Seq<HeardRecord>, session: u32) -> Option<int> {
    if exists|k: int| 0 <= k < rs.len() && #[trigger] rs[k].session == session {
        Some(
            choose|k: int|
                0 <= k < rs.len() && #[trigger] rs[k].session == session && forall|j: int|
                    0 <= j < k ==> rs[j].session != session,
        )
    } else {
        None
    }
}

/// Whether `k` is the first position of the least recently heard record.
pub open spec fn is_least_recent(rs: Seq<HeardRecord>, k: int) -> bool {
    &&& 0 <= k < rs.len()
    &&& forall|x: int| 0 <= x < rs.len() ==> rs[k].last <= #[trigger] rs[x].last
    &&& forall|x: int| 0 <= x < k ==> rs[k].last < #[trigger] rs[x].last
}

/// The first position of the least recently heard record.
pub open spec fn least_recent(rs: Seq<HeardRecord>) -> int {
    choose|k: int| is_least_recent(rs, k)
}

proof fn lemma_least_recent_unique(rs: Seq<HeardRecord>, k: int)
    requires
        is_least_recent(rs, k),
    ensures
        least_recent(rs) == k,
{
    let c = least_recent(rs);
    assert(is_least_recent(rs, c));
    if c < k {
        assert(rs[k].last < rs[c].last);
    } else if c > k {
        assert(rs[c].last < rs[k].last);
    }
}

/// Mutuality value that stands for "not applicable": the client reached nobody.
pub const MUTUALITY_NA: u32 = 255;

/// The anticheat state that the server keeps for each connected client.
pub struct ClientCounters {
    /// Distinct targets addressed recently (sliding window).
    pub window: TargetWindow,
    /// Largest number of recipients that one voice packet reached.
    pub max_recipients: u32,
    /// Consecutive suspicious evaluations (a clean one brings it back to zero).
    pub strikes: u32,
    /// Accumulated suspicion score.
    pub score: u64,
    /// Number of times the client was flagged.
    pub flags: u32,
    /// Time of the last flag, if any (nanoseconds).
    pub last_flag: Option<u64>,
    /// Players reached by the current voice target, at the last evaluation.
    pub reach_instant: u32,
    /// Distinct targets in the sliding window, at the last evaluation.
    pub reach_window: u32,
    /// Percentage of reached players that target the client back, or `MUTUALITY_NA`.
    pub mutuality: u32,
    /// Number of channels listened to, at the last evaluation.
    pub listen_count: u32,
    /// Exempt clients are flagged but never punished.
    pub exempt: bool,
    /// Returns to a distant earlier place, counted by the position tracker.
    pub pos_jumps: u32,
    /// Proximity targets found too far away, counted by the position tracker.
    pub far_targets: u32,
    /// Who spoke to this client recently.
    pub heard: HeardLog,
}

impl ClientCounters {
    /// The state of a freshly connected client.
    pub fn new() -> (c: ClientCounters)
        ensures
            c.window@ == Map::<u64, u64>::empty(),
            c.max_recipients == 0,
            c.strikes == 0,
            c.score == 0,
            c.flags == 0,
            c.last_flag is None,
            c.reach_instant == 0,
            c.reach_window == 0,
            c.mutuality == MUTUALITY_NA,
            c.listen_count == 0,
            !c.exempt,
            c.pos_jumps == 0,
            c.far_targets == 0,
            c.heard.records@.len() == 0,
    {
        ClientCounters {
            window: TargetWindow::new(),
            max_recipients: 0,
            strikes: 0,
            score: 0,
            flags: 0,
            last_flag: None,
            reach_instant: 0,
            reach_window: 0,
            mutuality: MUTUALITY_NA,
            listen_count: 0,
            exempt: false,
            pos_jumps: 0,
            far_targets: 0,
            heard: HeardLog::new(),
        }
    }
}

/// `new` is `old` after a reset: score, flags, peak recipients, strikes,
/// sliding window, position counters and heard list cleared; the last
/// evaluation's statistics, the exemption and the flag cooldown kept.
pub open spec fn is_reset_of(old: ClientCounters, new: ClientCounters) -> bool {
    &&& new.score == 0
    &&& new.flags == 0
    &&& new.max_recipients == 0
    &&& new.strikes == 0
    &&& new.window@ == Map::<u64, u64>::empty()
    &&& new.pos_jumps == 0
    &&& new.far_targets == 0
    &&& new.heard.records@.len() == 0
    &&& new.last_flag == old.last_flag
    &&& new.reach_instant == old.reach_instant
    &&& new.reach_window == old.reach_window
    &&& new.mutuality == old.mutuality
    &&& new.listen_count == old.listen_count
    &&& new.exempt == old.exempt
}

/// `new` holds the same counters as `old`, the exemption aside.
pub open spec fn same_but_exempt(old: ClientCounters, new: ClientCounters) -> bool {
    &&& new.window@ == old.window@
    &&& new.max_recipients == old.max_recipients
    &&& new.strikes == old.strikes
    &&& new.score == old.score
    &&& new.flags == old.flags
    &&& new.last_flag == old.last_flag
    &&& new.reach_instant == old.reach_instant
    &&& new.reach_window == old.reach_window
    &&& new.mutuality == old.mutuality
    &&& new.listen_count == old.listen_count
    &&& new.pos_jumps == old.pos_jumps
    &&& new.far_targets == old.far_targets
    &&& new.heard == old.heard
}

/// Resets the anticheat counters of one client (the panel's Reset button and
/// the global clear): score, flags, peak recipients, strikes, sliding window,
/// position counters and the heard list. The last evaluation's statistics, the
/// exemption and the flag cooldown are kept.
pub fn reset_client_counters(c: &mut ClientCounters)
    ensures
        is_reset_of(*old(c), *final(c)),
{
    c.score = 0;
    c.flags = 0;
    c.max_recipients = 0;
    c.strikes = 0;
    c.window.clear();
    c.pos_jumps = 0;
    c.far_targets = 0;
    c.heard.clear();
}

} // verus!
