use vstd::prelude::*;

use crate::clock::NANOS_PER_SEC;
use crate::config::at_least;
use crate::counters::{is_reset_of, reset_client_counters, same_but_exempt, ClientCounters, HeardLog, HeardRecord};
use crate::order::{in_order, is_permutation, sort_indices, sorted_by};
use crate::text::{push_str, str_eq};
use crate::window::elapsed;

verus! {

/// One line of the "who spoke to this player" list.
pub struct HeardItem {
    pub session_id: u32,
    pub name: String,
    pub ip: String,
    /// Whole seconds since this speaker was last heard.
    pub ago_secs: u64,
    /// Seconds of speech heard in total.
    pub secs: u32,
}

/// The "who spoke to this player" list of one player.
pub struct HeardResponse {
    pub session_id: u32,
    pub name: String,
    pub retention_secs: u32,
    pub heard: Vec<HeardItem>,
}

/// The retention of the heard lists in nanoseconds (never under ten seconds).
pub open spec fn retention_span(retention_secs: u32) -> u64 {
    (at_least(retention_secs, 10) * NANOS_PER_SEC) as u64
}

/// Whether a heard record is still within the retention at time `now`.
pub open spec fn still_heard(now: u64, span: u64, r: HeardRecord) -> bool {
    elapsed(now, r.last) <= span
}

/// Whole seconds elapsed from `t` to `now`.
pub open spec fn ago_secs(now: u64, t: u64) -> u64 {
    (elapsed(now, t) / (NANOS_PER_SEC as nat)) as u64
}

/// The line that a heard record gives at time `now`.
pub open spec fn heard_item_of(r: HeardRecord, now: u64) -> HeardItem {
    HeardItem { session_id: r.session, name: r.name, ip: r.ip, ago_secs: ago_secs(now, r.last), secs: r.secs }
}

/// Forgets the speakers heard more than the retention before `now`.
pub fn prune_heard(log: &mut HeardLog, now: u64, span: u64)
    ensures
        final(log).records@ == old(log).records@.filter(|r: HeardRecord| still_heard(now, span, r)),
{
    let ghost old_r = log.records@;
    let ghost p = |r: HeardRecord| still_heard(now, span, r);
    let n = log.records.len();
    let mut w: usize = 0;
    let mut i: usize = 0;
    while i < n
        invariant
            n == old_r.len(),
            i <= n,
            p == (|r: HeardRecord| still_heard(now, span, r)),
            w == old_r.take(i as int).filter(p).len(),
            log.records@ == old_r.take(i as int).filter(p) + old_r.skip(i as int),
        decreases n - i,
    {
        let ghost kept = old_r.take(i as int).filter(p);
        let ghost t = old_r.take(i + 1);
        assert(t.drop_last() =~= old_r.take(i as int));
        assert(t.last() == old_r[i as int]);
        assert(t.filter(p) == if p(old_r[i as int]) { kept.push(old_r[i as int]) } else { kept }) by {
            reveal_with_fuel(Seq::filter, 1);
        }
        assert(old_r.skip(i as int) =~= seq![old_r[i as int]] + old_r.skip(i + 1));
        assert(log.records@[w as int] == old_r[i as int]);
        let last = log.records[w].last;
        let keep = if now >= last { now - last <= span } else { true };
        if keep {
            w = w + 1;
            assert(log.records@ =~= old_r.take(i + 1).filter(p) + old_r.skip(i + 1));
        } else {
            log.records.remove(w);
            assert(log.records@ =~= old_r.take(i + 1).filter(p) + old_r.skip(i + 1));
        }
        i = i + 1;
    }
    assert(old_r.take(n as int) =~= old_r);
    assert(log.records@ =~= old_r.filter(p));
}

/// Who spoke to a player recently: prunes the player's heard log to the
/// retention (`retention_secs`, at least ten seconds) and lists the remaining
/// speakers, most recently heard first.
pub fn heard_response(
    session_id: u32,
    name: String,
    retention_secs: u32,
    log: &mut HeardLog,
    now: u64,
) -> (r: HeardResponse)
    ensures
        final(log).records@ == old(log).records@.filter(
            |x: HeardRecord| still_heard(now, retention_span(retention_secs), x),
        ),
        r.session_id == session_id,
        r.name == name,
        r.retention_secs == retention_secs,
        exists|order: Seq<usize>|
            {
                &&& is_permutation(order, final(log).records@.len())
                &&& r.heard@.len() == order.len()
                &&& forall|k: int|
                    0 <= k < order.len() ==> #[trigger] r.heard@[k] == heard_item_of(
                        final(log).records@[order[k] as int],
                        now,
                    )
            },
        forall|a: int, b: int|
            0 <= a < b < r.heard@.len() ==> #[trigger] r.heard@[a].ago_secs
                <= #[trigger] r.heard@[b].ago_secs,
{
    let keep_secs: u64 = if retention_secs < 10 { 10 } else { retention_secs as u64 };
    let span = keep_secs * NANOS_PER_SEC;
    prune_heard(log, now, span);
    let n = log.records.len();
    let mut keys: Vec<u128> = Vec::new();
    let mut i: usize = 0;
    while i < n
        invariant
            n == log.records@.len(),
            i <= n,
            keys@.len() == i,
            forall|j: int| 0 <= j < i ==> #[trigger] keys@[j] == ago_secs(now, log.records@[j].last) as u128,
        decreases n - i,
    {
        let last = log.records[i].last;
        let gap = if now >= last { now - last } else { 0 };
        keys.push((gap / NANOS_PER_SEC) as u128);
        i = i + 1;
    }
    let order = sort_indices(&keys, false);
    assert forall|j: int| 0 <= j < n implies (#[trigger] order@[j] as int) < n by {
        assert(order@.contains(order@[j]));
    }
    let mut heard: Vec<HeardItem> = Vec::new();
    let mut k: usize = 0;
    while k < n
        invariant
            n == log.records@.len(),
            n == keys@.len(),
            is_permutation(order@, n as nat),
            sorted_by(order@, keys@, false),
            forall|j: int| 0 <= j < n ==> (#[trigger] order@[j] as int) < n,
            forall|j: int| 0 <= j < n ==> #[trigger] keys@[j] == ago_secs(now, log.records@[j].last) as u128,
            k <= n,
            heard@.len() == k,
            forall|j: int|
                0 <= j < k ==> #[trigger] heard@[j] == heard_item_of(log.records@[order@[j] as int], now),
        decreases n - k,
    {
        let idx = order[k];
        assert(order@.contains(idx));
        let rec = &log.records[idx];
        let last = rec.last;
        let gap = if now >= last { now - last } else { 0 };
        let item = HeardItem {
            session_id: rec.session,
            name: rec.name.clone(),
            ip: rec.ip.clone(),
            ago_secs: gap / NANOS_PER_SEC,
            secs: rec.secs,
        };
        heard.push(item);
        k = k + 1;
    }
    proof {
        assert forall|a: int, b: int| 0 <= a < b < heard@.len() implies #[trigger] heard@[a].ago_secs
            <= #[trigger] heard@[b].ago_secs by {
            assert(in_order(keys@[order@[a] as int], keys@[order@[b] as int], false));
        }
    }
    HeardResponse { session_id, name, retention_secs, heard }
}

/// The panel's row order: by score, then by window reach, both largest first.
pub fn panel_order(scores: &Vec<u64>, windows: &Vec<u32>) -> (order: Vec<usize>)
    requires
        scores@.len() == windows@.len(),
    ensures
        is_permutation(order@, scores@.len()),
        forall|a: int, b: int|
            0 <= a < b < order@.len() ==> {
                let x = #[trigger] order@[a] as int;
                let y = #[trigger] order@[b] as int;
                scores@[x] > scores@[y] || (scores@[x] == scores@[y] && windows@[x] >= windows@[y])
            },
{
    let n = scores.len();
    let mut keys: Vec<u128> = Vec::new();
    let mut i: usize = 0;
    while i < n
        invariant
            n == scores@.len(),
            n == windows@.len(),
            i <= n,
            keys@.len() == i,
            forall|j: int|
                0 <= j < i ==> #[trigger] keys@[j] == scores@[j] as u128 * 0x1_0000_0000 + windows@[j] as u128,
        decreases n - i,
    {
        keys.push(scores[i] as u128 * 0x1_0000_0000 + windows[i] as u128);
        i = i + 1;
    }
    let order = sort_indices(&keys, true);
    proof {
        assert forall|a: int, b: int| 0 <= a < b < order@.len() implies {
            let x = #[trigger] order@[a] as int;
            let y = #[trigger] order@[b] as int;
            scores@[x] > scores@[y] || (scores@[x] == scores@[y] && windows@[x] >= windows@[y])
        } by {
            let x = order@[a] as int;
            let y = order@[b] as int;
            assert(order@.contains(order@[a]));
            assert(order@.contains(order@[b]));
            assert(in_order(keys@[x], keys@[y], true));
            let sx = scores@[x] as int;
            let sy = scores@[y] as int;
            let wx = windows@[x] as int;
            let wy = windows@[y] as int;
            assert(sx * 0x1_0000_0000 + wx >= sy * 0x1_0000_0000 + wy);
            assert(0 <= wx < 0x1_0000_0000 && 0 <= wy < 0x1_0000_0000);
            assert(sx > sy || (sx == sy && wx >= wy)) by (nonlinear_arith)
                requires
                    sx * 0x1_0000_0000 + wx >= sy * 0x1_0000_0000 + wy,
                    0 <= wx < 0x1_0000_0000,
                    0 <= wy < 0x1_0000_0000,
            ;
        }
    }
    order
}

/// A moderation request of the panel on a player.
pub struct UserAction {
    pub user: String,
    /// `block`, `unblock`, `kick`, `reset` or `ban`.
    pub action: String,
}

/// A request to lift a ban.
pub struct Unban {
    pub id: u64,
}

/// The moderation actions of the panel.
pub enum UserCommand {
    /// Persistent mute (recorded against IP and name).
    Block,
    /// Lifts the persistent mute, unmutes and exempts.
    Unblock,
    /// Disconnects.
    Kick,
    /// Resets the anticheat counters.
    Reset,
    /// Persistent ban (IP and name), then disconnection.
    Ban,
}

/// The command that an action name selects, if any.
pub open spec fn command_of(action: Seq<char>) -> Option<UserCommand> {
    if action == "block"@ {
        Some(UserCommand::Block)
    } else if action == "unblock"@ {
        Some(UserCommand::Unblock)
    } else if action == "kick"@ {
        Some(UserCommand::Kick)
    } else if action == "reset"@ {
        Some(UserCommand::Reset)
    } else if action == "ban"@ {
        Some(UserCommand::Ban)
    } else {
        None
    }
}

/// Parses the action of a moderation request; unknown actions are refused.
pub fn parse_user_command(action: &str) -> (c: Option<UserCommand>)
    ensures
        c == command_of(action@),
{
    if str_eq(action, "block") {
        Some(UserCommand::Block)
    } else if str_eq(action, "unblock") {
        Some(UserCommand::Unblock)
    } else if str_eq(action, "kick") {
        Some(UserCommand::Kick)
    } else if str_eq(action, "reset") {
        Some(UserCommand::Reset)
    } else if str_eq(action, "ban") {
        Some(UserCommand::Ban)
    } else {
        None
    }
}

/// A persistent entry to add to the ban list.
pub struct BanRequest {
    /// `mute` or `ban`.
    pub kind: &'static str,
    /// Why, as shown in the list.
    pub reason: &'static str,
}

/// What the server has to do, besides the counters, to carry out a command.
pub struct UserEffect {
    /// Entry to add to the persistent list (against the player's IP and name).
    pub record: Option<BanRequest>,
    /// Remove the persistent mutes matching the player's IP and name.
    pub lift_mutes: bool,
    /// New mute state of the player, if it changes.
    pub mute: Option<bool>,
    /// Disconnect the player.
    pub disconnect: bool,
}

/// Carries out a moderation command on a player's counters and says what else
/// the server has to do.
pub fn apply_user_command(cmd: UserCommand, c: &mut ClientCounters) -> (e: UserEffect)
    ensures
        match cmd {
            UserCommand::Block => {
                &&& !final(c).exempt
                &&& e.record matches Some(b) && b.kind@ == "mute"@ && b.reason@ == "mute manuel"@
                &&& !e.lift_mutes
                &&& e.mute == Some(true)
                &&& !e.disconnect
            },
            UserCommand::Unblock => {
                &&& final(c).exempt
                &&& e.record is None
                &&& e.lift_mutes
                &&& e.mute == Some(false)
                &&& !e.disconnect
            },
            UserCommand::Kick => {
                &&& final(c).exempt == old(c).exempt
                &&& e.record is None
                &&& !e.lift_mutes
                &&& e.mute is None
                &&& e.disconnect
            },
            UserCommand::Reset => {
                &&& is_reset_of(*old(c), *final(c))
                &&& e.record is None
                &&& !e.lift_mutes
                &&& e.mute is None
                &&& !e.disconnect
            },
            UserCommand::Ban => {
                &&& final(c).exempt == old(c).exempt
                &&& e.record matches Some(b) && b.kind@ == "ban"@ && b.reason@ == "banni via panel"@
                &&& !e.lift_mutes
                &&& e.mute is None
                &&& e.disconnect
            },
        },
        !(cmd is Reset) ==> same_but_exempt(*old(c), *final(c)),
{
    match cmd {
        UserCommand::Block => {
            c.exempt = false;
            UserEffect {
                record: Some(BanRequest { kind: "mute", reason: "mute manuel" }),
                lift_mutes: false,
                mute: Some(true),
                disconnect: false,
            }
        },
        UserCommand::Unblock => {
            c.exempt = true;
            UserEffect { record: None, lift_mutes: true, mute: Some(false), disconnect: false }
        },
        UserCommand::Kick => {
            UserEffect { record: None, lift_mutes: false, mute: None, disconnect: true }
        },
        UserCommand::Reset => {
            reset_client_counters(c);
            UserEffect { record: None, lift_mutes: false, mute: None, disconnect: false }
        },
        UserCommand::Ban => {
            UserEffect {
                record: Some(BanRequest { kind: "ban", reason: "banni via panel" }),
                lift_mutes: false,
                mute: None,
                disconnect: true,
            }
        },
    }
}

/// Whether the credentials of a request let it through: only when a password
/// is configured, and the request gives the configured user and password.
pub fn credentials_accepted(
    username: &str,
    password: Option<&str>,
    given_user: Option<&str>,
    given_password: Option<&str>,
) -> (ok: bool)
    ensures
        ok == (password is Some && given_user is Some && given_user.unwrap()@ == username@
            && given_password is Some && given_password.unwrap()@ == password.unwrap()@),
{
    match password {
        None => false,
        Some(p) => match given_user {
            None => false,
            Some(u) => {
                if !str_eq(u, username) {
                    return false;
                }
                match given_password {
                    None => false,
                    Some(g) => str_eq(g, p),
                }
            },
        },
    }
}

/// An IP address as the API shows it: blanked out when the server hides them.
pub fn shown_ip(ip: &str, hide: bool) -> (s: String)
    ensures
        s@ == if hide { Seq::<char>::empty() } else { ip@ },
{
    let mut out = String::new();
    if !hide {
        push_str(&mut out, ip);
    }
    out
}

} // verus!
