use vstd::prelude::*;

use crate::logring::{ring_push, LOG_CAPACITY};
use crate::order::in_order;
use crate::bans::{without_id, without_targets, BanEntry};
use crate::config::{at_least, at_most, clamped, osc_dist, peak_after, updated, AnticheatConfig};
use crate::counters::{ClientCounters, MUTUALITY_NA};
use crate::panel::{retention_span, still_heard};
use crate::counters::{first_with_session, is_least_recent, least_recent, new_second, HeardRecord};
use crate::sampler::{
    in_channel,
    answers, assess, client_updated, enforcement_of, escalates, flagged, is_spy, is_talk_cheat,
    mutual_set, mutuality_of, reached_set, strikes_after, suspicious, Assessment, ChannelSnapshot,
    ClientSnapshot, FLAG_COOLDOWN_NANOS,
};
use crate::voice::{hearing, receives, VoiceSlot};
use crate::window::{elapsed, fresh_part, stamped};

verus! {

/// After targets are recorded at time `now`, each of them is in the window,
/// stamped `now`, and every target left in the window was addressed within the span.
pub proof fn lemma_recorded_targets_in_window(m: Map<u64, u64>, keys: Seq<u64>, now: u64, span: u64)
    ensures
        forall|k: u64| #[trigger] keys.contains(k) ==> {
            &&& fresh_part(stamped(m, keys, now), now, span).dom().contains(k)
            &&& fresh_part(stamped(m, keys, now), now, span)[k] == now
        },
        forall|k: u64| #[trigger] fresh_part(stamped(m, keys, now), now, span).dom().contains(k)
            ==> elapsed(now, fresh_part(stamped(m, keys, now), now, span)[k]) <= span,
{
}

/// A client never counts itself among the players it reaches.
pub proof fn lemma_reach_excludes_self(
    chs: Seq<ChannelSnapshot>,
    cls: Seq<ClientSnapshot>,
    me: ClientSnapshot,
)
    ensures
        !reached_set(chs, cls, me).contains(me.session),
{
}

/// Mutuality is a percentage, or `MUTUALITY_NA` exactly when nobody is reached.
pub proof fn lemma_mutuality_range(
    chs: Seq<ChannelSnapshot>,
    cls: Seq<ClientSnapshot>,
    me: ClientSnapshot,
)
    requires
        reached_set(chs, cls, me).finite(),
    ensures
        mutuality_of(chs, cls, me) == MUTUALITY_NA <==> reached_set(chs, cls, me).len() == 0,
        mutuality_of(chs, cls, me) != MUTUALITY_NA ==> mutuality_of(chs, cls, me) <= 100,
{
    let r = reached_set(chs, cls, me);
    let m = mutual_set(chs, cls, me);
    if r.len() != 0 {
        assert(m.subset_of(r));
        vstd::set_lib::lemma_len_subset(m, r);
        let a = m.len() as int;
        let b = r.len() as int;
        assert(a * 100 / b <= 100) by (nonlinear_arith)
            requires
                0 <= a <= b,
                b > 0,
        ;
    }
}

/// A legitimate crowd: when every reached player targets the client back, its
/// mutuality is 100 %, so it is never a talk cheat unless the maximum
/// mutuality is set to 100 %.
pub proof fn lemma_crowd_is_fully_mutual(
    cfg: AnticheatConfig,
    chs: Seq<ChannelSnapshot>,
    cls: Seq<ClientSnapshot>,
    me: ClientSnapshot,
    reach: u32,
    active: u32,
)
    requires
        reached_set(chs, cls, me).finite(),
        reached_set(chs, cls, me).len() > 0,
        forall|r: u32| #[trigger] reached_set(chs, cls, me).contains(r) ==> answers(cls, me, r),
        cfg.mutuality_max_pct < 100,
    ensures
        mutuality_of(chs, cls, me) == 100,
        !is_talk_cheat(cfg, reach, active, mutuality_of(chs, cls, me)),
{
    let r = reached_set(chs, cls, me);
    assert(mutual_set(chs, cls, me) =~= r);
    let n = r.len() as int;
    assert(n * 100 / n == 100) by (nonlinear_arith)
        requires
            n > 0,
    ;
}

/// Small servers are protected: below `min_recipients` no one is a talk cheat.
pub proof fn lemma_few_recipients_never_talk_cheat(
    cfg: AnticheatConfig,
    reach: u32,
    active: u32,
    mutuality: u32,
)
    requires
        reach < cfg.min_recipients,
    ensures
        !is_talk_cheat(cfg, reach, active, mutuality),
{
}

/// With `listen_max` at 0 the spying detector is off.
pub proof fn lemma_listen_detector_off(cfg: AnticheatConfig, listens: u32)
    requires
        cfg.listen_max == 0,
    ensures
        !is_spy(cfg, listens),
{
}

/// Strikes count consecutive suspicious evaluations and fall back to zero on
/// a clean one; a client escalates only once its strikes reach the required number.
pub proof fn lemma_strikes(cfg: AnticheatConfig, a: Assessment, strikes: u32)
    requires
        strikes < u32::MAX,
    ensures
        suspicious(a) ==> strikes_after(strikes, true) == strikes + 1,
        !suspicious(a) ==> strikes_after(strikes, false) == 0,
        escalates(cfg, a, strikes) <==> (suspicious(a) && strikes + 1 >= at_least(cfg.strikes_required, 1)),
{
}

/// The strikes after a run of evaluations, starting from `strikes`, where
/// `found[j]` says whether the `j`-th evaluation found the client suspicious.
pub open spec fn strikes_over(strikes: u32, found: Seq<bool>) -> u32
    decreases found.len(),
{
    if found.len() == 0 {
        strikes
    } else {
        strikes_after(strikes_over(strikes, found.drop_last()), found.last())
    }
}

/// Strikes are consecutive: whatever came before, when a run of evaluations
/// leaves at least `r` strikes, the last `r` evaluations of the run (all of
/// them, when it is shorter) found the client suspicious.
pub proof fn lemma_strikes_are_consecutive(strikes: u32, found: Seq<bool>, r: u32)
    requires
        strikes_over(strikes, found) >= r,
    ensures
        forall|j: int| 0 <= j < found.len() && j >= found.len() - r ==> #[trigger] found[j],
    decreases found.len(),
{
    if found.len() > 0 && r > 0 {
        let prev = found.drop_last();
        let k = strikes_over(strikes, prev);
        assert(found.last());
        assert(k < u32::MAX);
        lemma_strikes_are_consecutive(strikes, prev, (r - 1) as u32);
        assert forall|j: int| 0 <= j < found.len() && j >= found.len() - r implies #[trigger] found[j] by {
            if j < found.len() - 1 {
                assert(prev[j] == found[j]);
            }
        }
    }
}

/// A client is acted on only after `strikes_required` consecutive suspicious
/// evaluations: when an evaluation that found it suspicious (`a`) escalates
/// after a run `found` of earlier evaluations (starting from `strikes`), every
/// evaluation among the last `strikes_required`, this one included, found it
/// suspicious; a clean one among them prevents the escalation.
pub proof fn lemma_escalation_needs_consecutive_suspicion(
    cfg: AnticheatConfig,
    a: Assessment,
    strikes: u32,
    found: Seq<bool>,
)
    requires
        escalates(cfg, a, strikes_over(strikes, found)),
    ensures
        suspicious(a),
        forall|j: int|
            0 <= j < found.len() && j >= found.len() + 1 - at_least(cfg.strikes_required, 1)
                ==> #[trigger] found[j],
{
    let all = found.push(true);
    assert(all.drop_last() =~= found);
    lemma_strikes_are_consecutive(strikes, all, at_least(cfg.strikes_required, 1));
    assert forall|j: int|
        0 <= j < found.len() && j >= found.len() + 1 - at_least(cfg.strikes_required, 1) implies #[trigger] found[j] by {
        assert(all[j] == found[j]);
    }
}

/// An exempt client is flagged and logged, but never punished.
pub proof fn lemma_exempt_never_punished(
    cfg: AnticheatConfig,
    cls: Seq<ClientSnapshot>,
    i: int,
    a: Assessment,
    c: ClientCounters,
    now: u64,
)
    requires
        c.exempt,
    ensures
        enforcement_of(cfg, cls, i, a, c, now) is None,
{
}

/// Punishments follow only flags, and only the configured action: logging
/// punishes nobody.
pub proof fn lemma_punishment_follows_action(
    cfg: AnticheatConfig,
    cls: Seq<ClientSnapshot>,
    i: int,
    a: Assessment,
    c: ClientCounters,
    now: u64,
)
    ensures
        enforcement_of(cfg, cls, i, a, c, now) is Some ==> flagged(cfg, a, c, now),
        cfg.action != crate::actions::ACTION_MUTE && cfg.action != crate::actions::ACTION_KICK
            && cfg.action != crate::actions::ACTION_BAN ==> enforcement_of(cfg, cls, i, a, c, now) is None,
{
}

/// A flagged client is not flagged again within the cooldown: after an
/// evaluation at `t1` that flagged it, no evaluation at a time `t2` less than
/// the cooldown later flags it.
pub proof fn lemma_flag_cooldown(
    cfg: AnticheatConfig,
    chs: Seq<ChannelSnapshot>,
    cls: Seq<ClientSnapshot>,
    i: int,
    c0: ClientCounters,
    c1: ClientCounters,
    t1: u64,
    a2: Assessment,
    t2: u64,
)
    requires
        client_updated(cfg, chs, cls, i, c0, c1, t1),
        flagged(cfg, assess(cfg, chs, cls, i, c0.window@, t1), c0, t1),
        elapsed(t2, t1) < FLAG_COOLDOWN_NANOS,
    ensures
        !flagged(cfg, a2, c1, t2),
{
}

/// Nobody hears their own voice through the server, except by loopback.
pub proof fn lemma_speaker_never_receives(
    target: u8,
    me: u32,
    my_channel: u32,
    chs: Seq<ChannelSnapshot>,
    slot: Option<VoiceSlot>,
    connected: Seq<u32>,
)
    ensures
        !receives(target, me, my_channel, chs, slot, connected, me),
{
}

/// Every speaker kept in a heard list was heard within the retention.
pub proof fn lemma_heard_within_retention(
    records: Seq<HeardRecord>,
    kept: Seq<HeardRecord>,
    now: u64,
    retention_secs: u32,
)
    requires
        kept == records.filter(|x: HeardRecord| still_heard(now, retention_span(retention_secs), x)),
    ensures
        forall|k: int|
            0 <= k < kept.len() ==> elapsed(now, #[trigger] kept[k].last) <= retention_span(retention_secs),
{
    let p = |x: HeardRecord| still_heard(now, retention_span(retention_secs), x);
    assert forall|k: int| 0 <= k < kept.len() implies elapsed(now, #[trigger] kept[k].last)
        <= retention_span(retention_secs) by {
        records.lemma_filter_pred(p, k);
    }
}

/// The window remembers chunking: targets recorded at `t0` are still counted
/// by an evaluation at any `t1` no later than the window span after `t0`.
pub proof fn lemma_window_remembers_recent_targets(
    m: Map<u64, u64>,
    keys: Seq<u64>,
    t0: u64,
    t1: u64,
    span: u64,
)
    requires
        t0 <= t1,
        t1 - t0 <= span,
    ensures
        forall|k: u64| #[trigger] keys.contains(k) ==> fresh_part(
            fresh_part(stamped(m, keys, t0), t0, span),
            t1,
            span,
        ).dom().contains(k),
{
}

/// A map-wide talker whom nobody targets back has a mutuality of 0 %, so with
/// a high reach it is a talk cheat.
pub proof fn lemma_unanswered_talker_has_zero_mutuality(
    cfg: AnticheatConfig,
    chs: Seq<ChannelSnapshot>,
    cls: Seq<ClientSnapshot>,
    me: ClientSnapshot,
    reach: u32,
    active: u32,
)
    requires
        reached_set(chs, cls, me).finite(),
        reached_set(chs, cls, me).len() > 0,
        forall|r: u32| #[trigger] reached_set(chs, cls, me).contains(r) ==> !answers(cls, me, r),
        reach >= cfg.min_recipients,
        reach * 100 > active * cfg.threshold_pct,
        cfg.mutuality_max_pct > 0,
    ensures
        mutuality_of(chs, cls, me) == 0,
        is_talk_cheat(cfg, reach, active, mutuality_of(chs, cls, me)),
{
    assert(mutual_set(chs, cls, me) =~= Set::<u32>::empty());
}

/// The peak statistic of the voice path never decreases, and the order in
/// which two emissions are noted does not matter.
pub proof fn lemma_peak_is_order_free(enabled: bool, peak: u32, a: u32, b: u32)
    ensures
        peak_after(enabled, peak, a) >= peak,
        peak_after(enabled, peak_after(enabled, peak, a), b) == peak_after(
            enabled,
            peak_after(enabled, peak, b),
            a,
        ),
{
}

/// What an evaluation adds to the score: when the client's suspicion has
/// lasted long enough (its new strikes reach the required number), a talk
/// cheat adds the reach used for the decision, the larger of its instant and
/// window reaches; a pure spy adds its listens; otherwise the score is kept.
pub proof fn lemma_escalation_scores_the_decisive_metric(
    cfg: AnticheatConfig,
    chs: Seq<ChannelSnapshot>,
    cls: Seq<ClientSnapshot>,
    i: int,
    old_c: ClientCounters,
    new_c: ClientCounters,
    now: u64,
)
    requires
        client_updated(cfg, chs, cls, i, old_c, new_c, now),
    ensures
        ({
            let a = assess(cfg, chs, cls, i, old_c.window@, now);
            let required: u32 = if cfg.strikes_required < 1 { 1 } else { cfg.strikes_required };
            let reach: u32 = if new_c.reach_instant >= new_c.reach_window {
                new_c.reach_instant
            } else {
                new_c.reach_window
            };
            &&& (a.talk_cheat && new_c.strikes >= required) ==> new_c.score
                == vstd::wrapping::u64_specs::wrapping_add(old_c.score, reach as u64)
            &&& (a.spy && !a.talk_cheat && new_c.strikes >= required) ==> new_c.score
                == vstd::wrapping::u64_specs::wrapping_add(old_c.score, new_c.listen_count as u64)
            &&& new_c.strikes < required ==> new_c.score == old_c.score
            &&& !a.talk_cheat && !a.spy ==> new_c.strikes == 0 && new_c.score == old_c.score
        }),
{
}

/// Channel voice reaches exactly the other clients sitting in the speaker's
/// channel; whisper voice reaches exactly the other players that are targeted
/// by session and connected, or that sit in or listen to any channel of the
/// whisper target.
pub proof fn lemma_voice_reaches_every_targeted_member(
    target: u8,
    me: u32,
    my_channel: u32,
    chs: Seq<ChannelSnapshot>,
    slot: VoiceSlot,
    connected: Seq<u32>,
    s: u32,
)
    ensures
        receives(0, me, my_channel, chs, Some(slot), connected, s) <==> (s != me && exists|c: int|
            0 <= c < chs.len() && chs[c].id == my_channel && #[trigger] chs[c].clients@.contains(s)),
        1 <= target <= 30 ==> (receives(target, me, my_channel, chs, Some(slot), connected, s) <==> (
        s != me && ((slot.sessions@.contains(s) && connected.contains(s)) || exists|k: int, c: int|
            #![trigger slot.channels@[k], chs[c]]
            0 <= k < slot.channels@.len() && 0 <= c < chs.len() && chs[c].id == slot.channels@[k]
                && (chs[c].clients@.contains(s) || chs[c].listeners@.contains(s))))),
        1 <= target <= 30 ==> !receives(target, me, my_channel, chs, None, connected, s),
{
    if 1 <= target <= 30 {
        if exists|k: int, c: int|
            #![trigger slot.channels@[k], chs[c]]
            0 <= k < slot.channels@.len() && 0 <= c < chs.len() && chs[c].id == slot.channels@[k]
                && (chs[c].clients@.contains(s) || chs[c].listeners@.contains(s)) {
            let (k, c) = choose|k: int, c: int|
                #![trigger slot.channels@[k], chs[c]]
                0 <= k < slot.channels@.len() && 0 <= c < chs.len() && chs[c].id == slot.channels@[k]
                    && (chs[c].clients@.contains(s) || chs[c].listeners@.contains(s));
            assert(in_channel(chs[c], s));
        }
    }
    if receives(0, me, my_channel, chs, Some(slot), connected, s) {
        let c = choose|c: int|
            0 <= c < chs.len() && chs[c].id == my_channel && #[trigger] chs[c].clients@.contains(s);
        assert(chs[c].clients@.contains(s));
    }
}

/// The heard list keeps every speaker heard within the retention
/// (`retention_secs`, at least ten seconds) and drops every other one, in order.
pub proof fn lemma_heard_retention_is_exact(
    records: Seq<HeardRecord>,
    now: u64,
    retention_secs: u32,
    r: HeardRecord,
)
    ensures
        ({
            let keep_secs: int = if retention_secs < 10 { 10 } else { retention_secs as int };
            let kept = records.filter(|x: HeardRecord| still_heard(now, retention_span(retention_secs), x));
            &&& kept.contains(r) <==> (records.contains(r) && elapsed(now, r.last) <= keep_secs
                * 1_000_000_000)
        }),
{
    let p = |x: HeardRecord| still_heard(now, retention_span(retention_secs), x);
    let kept = records.filter(p);
    if kept.contains(r) {
        records.lemma_filter_contains_rev(p, r);
        let j = choose|j: int| 0 <= j < kept.len() && kept[j] == r;
        records.lemma_filter_pred(p, j);
    }
    if records.contains(r) && p(r) {
        let j = choose|j: int| 0 <= j < records.len() && records[j] == r;
        records.lemma_filter_contains(p, j);
    }
}

/// Unbanning by id removes exactly the entries with that id and keeps every
/// other entry, in order.
pub proof fn lemma_unban_removes_only_that_id(s: Seq<BanEntry>, id: u64)
    ensures
        without_id(s, id) == s.filter(|e: BanEntry| e.id != id),
        forall|e: BanEntry| #[trigger] without_id(s, id).contains(e) <==> (s.contains(e) && e.id != id),
    decreases s.len(),
{
    let p = |e: BanEntry| e.id != id;
    if s.len() > 0 {
        lemma_unban_removes_only_that_id(s.drop_last(), id);
        reveal_with_fuel(Seq::filter, 1);
        assert(s.filter(p) == if p(s.last()) {
            s.drop_last().filter(p).push(s.last())
        } else {
            s.drop_last().filter(p)
        });
    } else {
        reveal_with_fuel(Seq::filter, 1);
        assert(s.filter(p) =~= s);
    }
    assert forall|e: BanEntry| #[trigger] without_id(s, id).contains(e) <==> (s.contains(e) && e.id != id) by {
        let kept = s.filter(p);
        if kept.contains(e) {
            s.lemma_filter_contains_rev(p, e);
            let j = choose|j: int| 0 <= j < kept.len() && kept[j] == e;
            s.lemma_filter_pred(p, j);
        }
        if s.contains(e) && e.id != id {
            let j = choose|j: int| 0 <= j < s.len() && s[j] == e;
            s.lemma_filter_contains(p, j);
        }
    }
}

/// Lifting mutes removes exactly the entries of that kind against the address
/// or the name, and keeps every other entry, in order.
pub proof fn lemma_lifting_removes_only_matching(s: Seq<BanEntry>, ip: Seq<char>, name: Seq<char>, kind: Seq<char>)
    ensures
        without_targets(s, ip, name, kind) == s.filter(
            |e: BanEntry|
                !(e.kind@ == kind && ((e.ip matches Some(x) && x@ == ip) || (e.name matches Some(x)
                    && x@ == name))),
        ),
    decreases s.len(),
{
    let p = |e: BanEntry|
        !(e.kind@ == kind && ((e.ip matches Some(x) && x@ == ip) || (e.name matches Some(x) && x@
            == name)));
    if s.len() > 0 {
        lemma_lifting_removes_only_matching(s.drop_last(), ip, name, kind);
        reveal_with_fuel(Seq::filter, 1);
        assert(s.filter(p) == if p(s.last()) {
            s.drop_last().filter(p).push(s.last())
        } else {
            s.drop_last().filter(p)
        });
    } else {
        reveal_with_fuel(Seq::filter, 1);
        assert(s.filter(p) =~= s);
    }
}

/// A panel update stores a value already in range as it is and brings any
/// other value to the nearest bound; an absent value keeps the setting.
pub proof fn lemma_updates_keep_values_in_range(cur: u32, v: u32)
    ensures
        updated(cur, None, |x: u32| osc_dist(x)) == cur,
        updated(cur, Some(v), |x: u32| osc_dist(x)) == if v == 0 {
            0
        } else if v < 50 {
            50
        } else {
            v
        },
        updated(cur, Some(v), |x: u32| clamped(x, 1, 100)) == if v < 1 {
            1
        } else if v > 100 {
            100
        } else {
            v
        },
        updated(cur, Some(v), |x: u32| at_most(x, 100)) == if v > 100 { 100 } else { v },
        updated(cur, Some(v), |x: u32| at_least(x, 1)) == if v < 1 { 1 } else { v },
        updated(cur, Some(v), |x: u32| at_least(x, 100)) == if v < 100 { 100 } else { v },
        updated(cur, Some(v), |x: u32| clamped(x, 10, 7200)) == if v < 10 {
            10
        } else if v > 7200 {
            7200
        } else {
            v
        },
{
}

/// An audio packet goes to exactly the routed recipients still connected and
/// not deaf, each at most as often as it was routed, in the routing order.
pub proof fn lemma_delivery_skips_only_deaf_and_gone(recipients: Seq<u32>, deaf: Seq<Option<bool>>)
    requires
        deaf.len() == recipients.len(),
    ensures
        forall|s: u32| #[trigger] hearing(recipients, deaf).contains(s) <==> exists|i: int|
            0 <= i < recipients.len() && recipients[i] == s && #[trigger] deaf[i] == Some(false),
        hearing(recipients, deaf).len() <= recipients.len(),
        (forall|i: int| 0 <= i < deaf.len() ==> #[trigger] deaf[i] == Some(false)) ==> hearing(
            recipients,
            deaf,
        ) == recipients,
    decreases recipients.len(),
{
    if recipients.len() > 0 {
        let n = recipients.len() - 1;
        let r0 = recipients.drop_last();
        let d0 = deaf.take(n);
        lemma_delivery_skips_only_deaf_and_gone(r0, d0);
        let prev = hearing(r0, d0);
        assert forall|s: u32| #[trigger] hearing(recipients, deaf).contains(s) <==> exists|i: int|
            0 <= i < recipients.len() && recipients[i] == s && #[trigger] deaf[i] == Some(false) by {
            if hearing(recipients, deaf).contains(s) {
                if prev.contains(s) {
                    let i = choose|i: int| 0 <= i < r0.len() && r0[i] == s && #[trigger] d0[i] == Some(false);
                    assert(recipients[i] == s && deaf[i] == Some(false));
                } else {
                    let h = hearing(recipients, deaf);
                    let j = choose|j: int| 0 <= j < h.len() && h[j] == s;
                    assert(deaf[n] == Some(false) && recipients[n] == s);
                }
            }
            if exists|i: int| 0 <= i < recipients.len() && recipients[i] == s && #[trigger] deaf[i] == Some(false) {
                let i = choose|i: int| 0 <= i < recipients.len() && recipients[i] == s && #[trigger] deaf[i] == Some(false);
                if i < n {
                    assert(r0[i] == s && d0[i] == Some(false));
                    assert(prev.contains(s));
                    let j = choose|j: int| 0 <= j < prev.len() && prev[j] == s;
                    if deaf[n] == Some(false) {
                        assert(prev.push(recipients.last())[j] == s);
                    }
                } else {
                    assert(prev.push(recipients.last())[prev.len() as int] == s);
                }
            }
        }
        if forall|i: int| 0 <= i < deaf.len() ==> #[trigger] deaf[i] == Some(false) {
            assert forall|i: int| 0 <= i < d0.len() implies #[trigger] d0[i] == Some(false) by {
                assert(deaf[i] == Some(false));
            }
            assert(deaf[n] == Some(false));
            assert(r0.push(recipients.last()) =~= recipients);
        }
    }
}

/// A speaker heard again within the same second gets no extra second of
/// speech; one heard a second or more after its last packet does.
pub proof fn lemma_speech_counts_seconds(last: u64, now: u64)
    ensures
        last / 1_000_000_000 == now / 1_000_000_000 ==> !new_second(last, now),
        now >= last + 1_000_000_000 ==> new_second(last, now),
        now <= last ==> !new_second(last, now),
{
    assert(now >= last + 1_000_000_000 ==> now / 1_000_000_000 >= (last + 1_000_000_000) / 1_000_000_000) by (nonlinear_arith);
    assert((last + 1_000_000_000) / 1_000_000_000 == last / 1_000_000_000 + 1) by (nonlinear_arith);
    assert(now <= last ==> now / 1_000_000_000 <= last / 1_000_000_000) by (nonlinear_arith);
}

/// A known speaker is found at its first record; an unknown one has none. The
/// record dropped from a full list is the least recently heard one (the first
/// of them on a tie).
pub proof fn lemma_heard_lookup(rs: Seq<HeardRecord>, session: u32)
    ensures
        first_with_session(rs, session) matches Some(k) ==> {
            &&& 0 <= k < rs.len()
            &&& rs[k].session == session
            &&& forall|j: int| 0 <= j < k ==> #[trigger] rs[j].session != session
        },
        first_with_session(rs, session) is None <==> forall|j: int|
            0 <= j < rs.len() ==> #[trigger] rs[j].session != session,
        rs.len() > 0 ==> {
            let k = least_recent(rs);
            &&& 0 <= k < rs.len()
            &&& forall|j: int| 0 <= j < rs.len() ==> rs[k].last <= #[trigger] rs[j].last
            &&& forall|j: int| 0 <= j < k ==> rs[k].last < #[trigger] rs[j].last
        },
{
    if exists|k: int| 0 <= k < rs.len() && #[trigger] rs[k].session == session {
        let k0 = choose|k: int| 0 <= k < rs.len() && #[trigger] rs[k].session == session;
        lemma_first_index_exists(rs, session, k0);
    }
    if rs.len() > 0 {
        lemma_least_recent_exists(rs);
    }
}

proof fn lemma_first_index_exists(rs: Seq<HeardRecord>, session: u32, k0: int)
    requires
        0 <= k0 < rs.len(),
        rs[k0].session == session,
    ensures
        exists|k: int|
            0 <= k < rs.len() && #[trigger] rs[k].session == session && forall|j: int|
                0 <= j < k ==> rs[j].session != session,
    decreases k0,
{
    if exists|j: int| 0 <= j < k0 && #[trigger] rs[j].session == session {
        let j = choose|j: int| 0 <= j < k0 && #[trigger] rs[j].session == session;
        lemma_first_index_exists(rs, session, j);
    } else {
        assert(forall|j: int| 0 <= j < k0 ==> rs[j].session != session);
    }
}

proof fn lemma_least_recent_in_prefix(rs: Seq<HeardRecord>, m: int)
    requires
        0 <= m < rs.len(),
    ensures
        exists|k: int| 0 <= k <= m && #[trigger] is_least_recent(rs.take(m + 1), k),
    decreases m,
{
    if m == 0 {
        assert(is_least_recent(rs.take(1), 0));
    } else {
        lemma_least_recent_in_prefix(rs, m - 1);
        let k = choose|k: int| 0 <= k <= m - 1 && #[trigger] is_least_recent(rs.take(m), k);
        let t = rs.take(m + 1);
        assert(forall|x: int| 0 <= x < m ==> #[trigger] t[x] == rs.take(m)[x]);
        if rs[m].last < rs[k].last {
            assert(is_least_recent(t, m));
        } else {
            assert(is_least_recent(t, k));
        }
    }
}

proof fn lemma_least_recent_exists(rs: Seq<HeardRecord>)
    requires
        rs.len() > 0,
    ensures
        exists|k: int| #[trigger] is_least_recent(rs, k),
{
    let m = rs.len() - 1;
    lemma_least_recent_in_prefix(rs, m);
    let k = choose|k: int| 0 <= k <= m && #[trigger] is_least_recent(rs.take(m + 1), k);
    assert(rs.take(m + 1) =~= rs);
    assert(is_least_recent(rs, k));
}

/// What an evaluation decides, over the raw figures: a talk cheat has a reach
/// (the larger of the instant and window reaches) of at least `min_recipients`
/// and above `threshold_pct` percent of the connected players, with a
/// mutuality (when it applies) under `mutuality_max_pct`; a spy listens to more
/// than `listen_max` channels (when that is not 0). The instant reach counts
/// the connected players other than the client that its target names by
/// session or that sit in or listen to a channel it targets. Strikes count
/// the consecutive suspicious evaluations, and a flag is raised once they
/// reach the required number, unless the last flag is less than three seconds
/// old.
pub proof fn lemma_evaluation_outcome(
    cfg: AnticheatConfig,
    chs: Seq<ChannelSnapshot>,
    cls: Seq<ClientSnapshot>,
    i: int,
    old_c: ClientCounters,
    new_c: ClientCounters,
    now: u64,
    s: u32,
)
    requires
        0 <= i < cls.len(),
        client_updated(cfg, chs, cls, i, old_c, new_c, now),
    ensures
        ({
            let a = assess(cfg, chs, cls, i, old_c.window@, now);
            let me = cls[i];
            let reach: int = if new_c.reach_instant >= new_c.reach_window {
                new_c.reach_instant as int
            } else {
                new_c.reach_window as int
            };
            let required: int = if cfg.strikes_required < 1 { 1 } else { cfg.strikes_required as int };
            let suspect = a.talk_cheat || a.spy;
            let cool = match old_c.last_flag {
                Some(t) => now >= t && now - t >= 3_000_000_000,
                None => true,
            };
            &&& a.talk_cheat <==> (reach >= cfg.min_recipients && reach * 100 > cls.len() as u32 as int
                * cfg.threshold_pct && new_c.mutuality != 255 && new_c.mutuality < cfg.mutuality_max_pct)
            &&& a.spy <==> (cfg.listen_max > 0 && new_c.listen_count > cfg.listen_max)
            &&& reached_set(chs, cls, me).contains(s) <==> (s != me.session && (exists|j: int|
                0 <= j < cls.len() && #[trigger] cls[j].session == s) && (
            me.target_sessions@.contains(s) || exists|k: int, c: int|
                #![trigger me.target_channels@[k], chs[c]]
                0 <= k < me.target_channels@.len() && 0 <= c < chs.len() && chs[c].id
                    == me.target_channels@[k] && (chs[c].clients@.contains(s)
                    || chs[c].listeners@.contains(s))))
            &&& new_c.strikes == if suspect {
                vstd::wrapping::u32_specs::wrapping_add(old_c.strikes, 1)
            } else {
                0
            }
            &&& (new_c.last_flag == Some(now) && new_c.flags == vstd::wrapping::u32_specs::wrapping_add(
                old_c.flags,
                1,
            )) <== (suspect && new_c.strikes >= required && cool)
            &&& !(suspect && new_c.strikes >= required && cool) ==> (new_c.last_flag
                == old_c.last_flag && new_c.flags == old_c.flags)
        }),
{
    let me = cls[i];
    if exists|k: int, c: int|
        #![trigger me.target_channels@[k], chs[c]]
        0 <= k < me.target_channels@.len() && 0 <= c < chs.len() && chs[c].id == me.target_channels@[k]
            && (chs[c].clients@.contains(s) || chs[c].listeners@.contains(s)) {
        let (k, c) = choose|k: int, c: int|
            #![trigger me.target_channels@[k], chs[c]]
            0 <= k < me.target_channels@.len() && 0 <= c < chs.len() && chs[c].id
                == me.target_channels@[k] && (chs[c].clients@.contains(s)
                || chs[c].listeners@.contains(s));
        assert(in_channel(chs[c], s));
    }
}

/// The panel's log keeps the most recent lines: appending a line to a log of
/// at most `LOG_CAPACITY` lines gives the newest `LOG_CAPACITY` lines of the
/// log followed by that line.
pub proof fn lemma_log_keeps_the_most_recent(log: Seq<Seq<char>>, line: Seq<char>)
    requires
        log.len() <= LOG_CAPACITY,
    ensures
        ({
            let all = log.push(line);
            let keep: int = if all.len() > LOG_CAPACITY { LOG_CAPACITY as int } else { all.len() as int };
            ring_push(log, line) == all.subrange(all.len() - keep, all.len() as int)
        }),
{
    let all = log.push(line);
    if log.len() >= LOG_CAPACITY {
        assert(log.drop_first().push(line) =~= all.subrange(1, all.len() as int));
    } else {
        assert(all =~= all.subrange(0, all.len() as int));
    }
}

/// Ascending order puts smaller keys first and descending order larger keys
/// first; equal keys may come in either order.
pub proof fn lemma_key_order(x: u128, y: u128)
    ensures
        in_order(x, y, false) <==> x <= y,
        in_order(x, y, true) <==> x >= y,
{
}

} // verus!
