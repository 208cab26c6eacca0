use vstd::prelude::*;
use crate::seqs::lemma_prefix_contains;
use vstd::std_specs::hash::group_hash_axioms;
use std::collections::HashSet;

use crate::actions::{action_text, ACTION_BAN, ACTION_KICK, ACTION_MUTE};
use crate::clock::unix_secs_now;
use crate::config::{at_least, AnticheatConfig};
use crate::counters::{ClientCounters, MUTUALITY_NA};
use crate::logring::{ring_push, ring_push_all, texts};
use crate::text::{decimal, hms_text, format_hms, push_decimal, push_str};
use crate::window::{elapsed, fresh_part};

verus! {

broadcast use group_hash_axioms;

/// A channel as seen at the start of an evaluation: who sits in it and who
/// listens to it.
pub struct ChannelSnapshot {
    pub id: u32,
    pub clients: Vec<u32>,
    pub listeners: Vec<u32>,
}

/// A client as seen at the start of an evaluation: its session, name, channel,
/// and the union of the channels and sessions its voice targets address.
pub struct ClientSnapshot {
    pub session: u32,
    pub name: String,
    pub channel: u32,
    pub target_channels: Vec<u32>,
    pub target_sessions: Vec<u32>,
}

/// Whether session `s` sits in or listens to the channel.
pub open spec fn in_channel(ch: ChannelSnapshot, s: u32) -> bool {
    ch.clients@.contains(s) || ch.listeners@.contains(s)
}

/// Whether `s` is a member of a channel whose id is among `ids`.
pub open spec fn via_channels(chs: Seq<ChannelSnapshot>, ids: Seq<u32>, s: u32) -> bool {
    exists|k: int, i: int|
        #![trigger ids[k], in_channel(chs[i], s)]
        0 <= k < ids.len() && 0 <= i < chs.len() && chs[i].id == ids[k] && in_channel(chs[i], s)
}

/// Whether the voice target of `me` addresses session `s` (never itself),
/// connected or not.
pub open spec fn addresses(chs: Seq<ChannelSnapshot>, me: ClientSnapshot, s: u32) -> bool {
    &&& s != me.session
    &&& (me.target_sessions@.contains(s) || via_channels(chs, me.target_channels@, s))
}

/// Whether some connected client has session `s`.
pub open spec fn is_connected(cls: Seq<ClientSnapshot>, s: u32) -> bool {
    exists|j: int| 0 <= j < cls.len() && #[trigger] cls[j].session == s
}

/// Whether the voice target of `me` really reaches session `s`: a connected
/// player other than `me` that it addresses.
pub open spec fn reaches(
    chs: Seq<ChannelSnapshot>,
    cls: Seq<ClientSnapshot>,
    me: ClientSnapshot,
    s: u32,
) -> bool {
    addresses(chs, me, s) && is_connected(cls, s)
}

/// The players that the voice target of `me` really reaches.
pub open spec fn reached_set(
    chs: Seq<ChannelSnapshot>,
    cls: Seq<ClientSnapshot>,
    me: ClientSnapshot,
) -> Set<u32> {
    Set::new(|s: u32| reaches(chs, cls, me, s))
}

/// Whether `o` targets `me` back: `me`'s session, or `me`'s channel.
pub open spec fn targets_back(o: ClientSnapshot, me: ClientSnapshot) -> bool {
    o.target_sessions@.contains(me.session) || o.target_channels@.contains(me.channel)
}

/// Whether the connected client with session `r` targets `me` back.
pub open spec fn answers(cls: Seq<ClientSnapshot>, me: ClientSnapshot, r: u32) -> bool {
    exists|j: int| 0 <= j < cls.len() && cls[j].session == r && #[trigger] targets_back(cls[j], me)
}

/// The reached players that target `me` back.
pub open spec fn mutual_set(
    chs: Seq<ChannelSnapshot>,
    cls: Seq<ClientSnapshot>,
    me: ClientSnapshot,
) -> Set<u32> {
    reached_set(chs, cls, me).filter(|r: u32| answers(cls, me, r))
}

/// Number of channels among `chs` that `s` listens to.
pub open spec fn listens_of(chs: Seq<ChannelSnapshot>, s: u32) -> nat
    decreases chs.len(),
{
    if chs.len() == 0 {
        0
    } else {
        listens_of(chs.drop_last(), s) + if chs.last().listeners@.contains(s) {
            1nat
        } else {
            0nat
        }
    }
}

/// Whether `v` holds `x`.
pub fn vec_contains(v: &Vec<u32>, x: u32) -> (b: bool)
    ensures
        b == v@.contains(x),
{
    let n = v.len();
    let mut i: usize = 0;
    while i < n
        invariant
            n == v@.len(),
            i <= n,
            forall|j: int| 0 <= j < i ==> v@[j] != x,
        decreases n - i,
    {
        if v[i] == x {
            assert(v@[i as int] == x);
            return true;
        }
        i = i + 1;
    }
    false
}

/// Appends `s` to the distinct list `out` unless it is already there (or is `except`).
pub(crate) fn add_reached(seen: &mut HashSet<u32>, out: &mut Vec<u32>, s: u32, except: Option<u32>)
    requires
        old(out)@.no_duplicates(),
        forall|x: u32| old(seen)@.contains(x) <==> old(out)@.contains(x),
    ensures
        final(out)@.no_duplicates(),
        forall|x: u32| final(seen)@.contains(x) <==> final(out)@.contains(x),
        forall|x: u32|
            #[trigger] final(out)@.contains(x) <==> (old(out)@.contains(x) || (x == s && except
                != Some(s))),
{
    if except == Some(s) {
        return;
    }
    if seen.insert(s) {
        let ghost before = out@;
        out.push(s);
        proof {
            assert forall|x: u32| #[trigger] out@.contains(x) <==> (before.contains(x) || x == s) by {
                if out@.contains(x) {
                    let j = choose|j: int| 0 <= j < out@.len() && out@[j] == x;
                    if j < before.len() {
                        assert(before[j] == x);
                    }
                }
                if before.contains(x) {
                    let j = choose|j: int| 0 <= j < before.len() && before[j] == x;
                    assert(out@[j] == x);
                }
                if x == s {
                    assert(out@[before.len() as int] == x);
                }
            }
            assert forall|a: int, b: int|
                0 <= a < out@.len() && 0 <= b < out@.len() && a != b implies out@[a] != out@[b] by {
                if a == before.len() {
                    assert(before.contains(out@[b]));
                } else if b == before.len() {
                    assert(before.contains(out@[a]));
                }
            }
        }
    }
}

/// Adds every session of `v` other than `except` to the distinct list `out`.
pub(crate) fn add_all_reached(
    seen: &mut HashSet<u32>,
    out: &mut Vec<u32>,
    v: &Vec<u32>,
    except: Option<u32>,
)
    requires
        old(out)@.no_duplicates(),
        forall|x: u32| old(seen)@.contains(x) <==> old(out)@.contains(x),
    ensures
        final(out)@.no_duplicates(),
        forall|x: u32| final(seen)@.contains(x) <==> final(out)@.contains(x),
        forall|x: u32|
            #[trigger] final(out)@.contains(x) <==> (old(out)@.contains(x) || (v@.contains(x)
                && except != Some(x))),
{
    let ghost start = out@;
    let n = v.len();
    let mut i: usize = 0;
    while i < n
        invariant
            n == v@.len(),
            i <= n,
            out@.no_duplicates(),
            forall|x: u32| seen@.contains(x) <==> out@.contains(x),
            forall|x: u32|
                #[trigger] out@.contains(x) <==> (start.contains(x) || (v@.subrange(
                    0,
                    i as int,
                ).contains(x) && except != Some(x))),
        decreases n - i,
    {
        add_reached(seen, out, v[i], except);
        proof {
            lemma_prefix_contains(v@, i as int);
        }
        i = i + 1;
    }
    assert(v@.subrange(0, n as int) =~= v@);
}

/// The sessions of the connected clients.
pub fn connected_sessions(cls: &Vec<ClientSnapshot>) -> (set: HashSet<u32>)
    ensures
        forall|s: u32| #[trigger] set@.contains(s) <==> is_connected(cls@, s),
{
    let mut set: HashSet<u32> = HashSet::new();
    let n = cls.len();
    let mut j: usize = 0;
    while j < n
        invariant
            n == cls@.len(),
            j <= n,
            forall|s: u32|
                #[trigger] set@.contains(s) <==> exists|x: int| 0 <= x < j && #[trigger] cls@[x].session == s,
        decreases n - j,
    {
        set.insert(cls[j].session);
        proof {
            assert forall|s: u32|
                #[trigger] set@.contains(s) <==> exists|x: int| 0 <= x < j + 1 && #[trigger] cls@[x].session == s by {
                if s == cls@[j as int].session {
                    assert(0 <= j < j + 1 && cls@[j as int].session == s);
                }
                if exists|x: int| 0 <= x < j + 1 && #[trigger] cls@[x].session == s {
                    let x = choose|x: int| 0 <= x < j + 1 && #[trigger] cls@[x].session == s;
                    if x < j {
                        assert(0 <= x < j && cls@[x].session == s);
                    }
                }
            }
        }
        j = j + 1;
    }
    set
}

/// The distinct connected players that the voice target of `me` reaches.
pub fn reached_sessions(
    chs: &Vec<ChannelSnapshot>,
    cls: &Vec<ClientSnapshot>,
    me: &ClientSnapshot,
    connected: &HashSet<u32>,
) -> (r: Vec<u32>)
    requires
        forall|s: u32| #[trigger] connected@.contains(s) <==> is_connected(cls@, s),
    ensures
        r@.no_duplicates(),
        forall|s: u32| #[trigger] r@.contains(s) <==> reaches(chs@, cls@, *me, s),
{
    let all = addressed_sessions(chs, me);
    let n = all.len();
    let mut out: Vec<u32> = Vec::new();
    let mut i: usize = 0;
    while i < n
        invariant
            n == all@.len(),
            all@.no_duplicates(),
            forall|s: u32| #[trigger] all@.contains(s) <==> addresses(chs@, *me, s),
            forall|s: u32| #[trigger] connected@.contains(s) <==> is_connected(cls@, s),
            i <= n,
            out@.no_duplicates(),
            forall|x: u32|
                #[trigger] out@.contains(x) <==> (all@.subrange(0, i as int).contains(x)
                    && is_connected(cls@, x)),
        decreases n - i,
    {
        let x = all[i];
        let ghost before = out@;
        if connected.contains(&x) {
            out.push(x);
        }
        proof {
            let a = all@.subrange(0, i + 1);
            let b = all@.subrange(0, i as int);
            lemma_prefix_contains(all@, i as int);
            assert(!b.contains(x)) by {
                if b.contains(x) {
                    let j = choose|j: int| 0 <= j < b.len() && b[j] == x;
                    assert(all@[j] == all@[i as int]);
                }
            }
            assert forall|y: u32| #[trigger] out@.contains(y) <==> (before.contains(y) || (y == x
                && is_connected(cls@, x))) by {
                if out@.contains(y) {
                    let j = choose|j: int| 0 <= j < out@.len() && out@[j] == y;
                    if j < before.len() {
                        assert(before[j] == y);
                    }
                }
                if before.contains(y) {
                    let j = choose|j: int| 0 <= j < before.len() && before[j] == y;
                    assert(out@[j] == y);
                }
                if y == x && is_connected(cls@, x) {
                    assert(out@[before.len() as int] == y);
                }
            }
            assert forall|p: int, q: int|
                0 <= p < out@.len() && 0 <= q < out@.len() && p != q implies out@[p] != out@[q] by {
                if p == before.len() {
                    assert(before.contains(out@[q]));
                } else if q == before.len() {
                    assert(before.contains(out@[p]));
                }
            }
        }
        i = i + 1;
    }
    assert(all@.subrange(0, n as int) =~= all@);
    out
}

/// The distinct players that the voice target of `me` addresses, connected or not.
fn addressed_sessions(chs: &Vec<ChannelSnapshot>, me: &ClientSnapshot) -> (r: Vec<u32>)
    ensures
        r@.no_duplicates(),
        forall|s: u32| #[trigger] r@.contains(s) <==> addresses(chs@, *me, s),
{
    let mut seen: HashSet<u32> = HashSet::new();
    let mut out: Vec<u32> = Vec::new();
    add_all_reached(&mut seen, &mut out, &me.target_sessions, Some(me.session));
    let ids = &me.target_channels;
    let nk = ids.len();
    let nc = chs.len();
    let mut k: usize = 0;
    while k < nk
        invariant
            nk == ids@.len(),
            nc == chs@.len(),
            ids == &me.target_channels,
            k <= nk,
            out@.no_duplicates(),
            forall|x: u32| seen@.contains(x) <==> out@.contains(x),
            forall|x: u32|
                #[trigger] out@.contains(x) <==> (x != me.session && (
                me.target_sessions@.contains(x) || via_channels(
                    chs@,
                    ids@.subrange(0, k as int),
                    x,
                ))),
        decreases nk - k,
    {
        let id = ids[k];
        let mut i: usize = 0;
        while i < nc
            invariant
                nk == ids@.len(),
                nc == chs@.len(),
                ids == &me.target_channels,
                k < nk,
                id == ids@[k as int],
                i <= nc,
                out@.no_duplicates(),
                forall|x: u32| seen@.contains(x) <==> out@.contains(x),
                forall|x: u32|
                    #[trigger] out@.contains(x) <==> (x != me.session && (
                    me.target_sessions@.contains(x) || via_channels(
                        chs@,
                        ids@.subrange(0, k as int),
                        x,
                    ) || exists|c: int|
                        0 <= c < i && chs@[c].id == id && #[trigger] in_channel(chs@[c], x))),
            decreases nc - i,
        {
            let ch = &chs[i];
            if ch.id == id {
                let ghost before = out@;
                add_all_reached(&mut seen, &mut out, &ch.clients, Some(me.session));
                add_all_reached(&mut seen, &mut out, &ch.listeners, Some(me.session));
                proof {
                    assert forall|x: u32| #[trigger]
                        out@.contains(x) <==> (x != me.session && (me.target_sessions@.contains(x)
                            || via_channels(chs@, ids@.subrange(0, k as int), x) || exists|c: int|
                            0 <= c < i + 1 && chs@[c].id == id && #[trigger] in_channel(
                                chs@[c],
                                x,
                            ))) by {
                        if exists|c: int|
                            0 <= c < i + 1 && chs@[c].id == id && #[trigger] in_channel(
                                chs@[c],
                                x,
                            ) {
                            let c = choose|c: int|
                                0 <= c < i + 1 && chs@[c].id == id && #[trigger] in_channel(
                                    chs@[c],
                                    x,
                                );
                            if c < i {
                                assert(exists|c: int|
                                    0 <= c < i && chs@[c].id == id && #[trigger] in_channel(
                                        chs@[c],
                                        x,
                                    ));
                            }
                        }
                        if before.contains(x) {
                            if exists|c: int|
                                0 <= c < i && chs@[c].id == id && #[trigger] in_channel(chs@[c], x) {
                                let c = choose|c: int|
                                    0 <= c < i && chs@[c].id == id && #[trigger] in_channel(
                                        chs@[c],
                                        x,
                                    );
                                assert(0 <= c < i + 1 && chs@[c].id == id && in_channel(chs@[c], x));
                            }
                        }
                        if out@.contains(x) && !before.contains(x) {
                            assert(0 <= i < i + 1 && chs@[i as int].id == id && in_channel(
                                chs@[i as int],
                                x,
                            ));
                        }
                    }
                }
            } else {
                proof {
                    assert forall|x: u32| #[trigger]
                        out@.contains(x) <==> (x != me.session && (me.target_sessions@.contains(x)
                            || via_channels(chs@, ids@.subrange(0, k as int), x) || exists|c: int|
                            0 <= c < i + 1 && chs@[c].id == id && #[trigger] in_channel(
                                chs@[c],
                                x,
                            ))) by {
                        if exists|c: int|
                            0 <= c < i + 1 && chs@[c].id == id && #[trigger] in_channel(
                                chs@[c],
                                x,
                            ) {
                            let c = choose|c: int|
                                0 <= c < i + 1 && chs@[c].id == id && #[trigger] in_channel(
                                    chs@[c],
                                    x,
                                );
                            assert(c < i);
                        }
                        if exists|c: int|
                            0 <= c < i && chs@[c].id == id && #[trigger] in_channel(chs@[c], x) {
                            let c = choose|c: int|
                                0 <= c < i && chs@[c].id == id && #[trigger] in_channel(chs@[c], x);
                            assert(0 <= c < i + 1 && chs@[c].id == id && in_channel(chs@[c], x));
                        }
                    }
                }
            }
            i = i + 1;
        }
        proof {
            let before_ids = ids@.subrange(0, k as int);
            let after_ids = ids@.subrange(0, k + 1);
            assert forall|x: u32|
                #[trigger] via_channels(chs@, after_ids, x) <==> (via_channels(chs@, before_ids, x)
                    || exists|c: int|
                    0 <= c < nc && chs@[c].id == id && #[trigger] in_channel(chs@[c], x)) by {
                if via_channels(chs@, after_ids, x) {
                    let (kk, c) = choose|kk: int, c: int|
                        #![trigger after_ids[kk], in_channel(chs@[c], x)]
                        0 <= kk < after_ids.len() && 0 <= c < chs@.len() && chs@[c].id
                            == after_ids[kk] && in_channel(chs@[c], x);
                    if kk < k {
                        assert(before_ids[kk] == after_ids[kk]);
                        assert(0 <= kk < before_ids.len() && 0 <= c < chs@.len() && chs@[c].id
                            == before_ids[kk] && in_channel(chs@[c], x));
                    } else {
                        assert(0 <= c < nc && chs@[c].id == id && in_channel(chs@[c], x));
                    }
                }
                if via_channels(chs@, before_ids, x) {
                    let (kk, c) = choose|kk: int, c: int|
                        #![trigger before_ids[kk], in_channel(chs@[c], x)]
                        0 <= kk < before_ids.len() && 0 <= c < chs@.len() && chs@[c].id
                            == before_ids[kk] && in_channel(chs@[c], x);
                    assert(after_ids[kk] == before_ids[kk]);
                    assert(0 <= kk < after_ids.len() && 0 <= c < chs@.len() && chs@[c].id
                        == after_ids[kk] && in_channel(chs@[c], x));
                }
                if exists|c: int|
                    0 <= c < nc && chs@[c].id == id && #[trigger] in_channel(chs@[c], x) {
                    let c = choose|c: int|
                        0 <= c < nc && chs@[c].id == id && #[trigger] in_channel(chs@[c], x);
                    assert(after_ids[k as int] == id);
                    assert(0 <= k < after_ids.len() && 0 <= c < chs@.len() && chs@[c].id
                        == after_ids[k as int] && in_channel(chs@[c], x));
                }
            }
        }
        k = k + 1;
    }
    assert(ids@.subrange(0, nk as int) =~= ids@);
    out
}

/// Whether the connected client with session `r` targets `me` back.
pub fn answers_back(cls: &Vec<ClientSnapshot>, me: &ClientSnapshot, r: u32) -> (b: bool)
    ensures
        b == answers(cls@, *me, r),
{
    let n = cls.len();
    let mut j: usize = 0;
    while j < n
        invariant
            n == cls@.len(),
            j <= n,
            forall|x: int| 0 <= x < j ==> !(cls@[x].session == r && #[trigger] targets_back(cls@[x], *me)),
        decreases n - j,
    {
        let o = &cls[j];
        if o.session == r && (vec_contains(&o.target_sessions, me.session) || vec_contains(
            &o.target_channels,
            me.channel,
        )) {
            assert(targets_back(cls@[j as int], *me));
            return true;
        }
        j = j + 1;
    }
    false
}

/// The members of `reached` that target `me` back, as a distinct list.
fn mutual_sessions(cls: &Vec<ClientSnapshot>, me: &ClientSnapshot, reached: &Vec<u32>) -> (m: Vec<u32>)
    requires
        reached@.no_duplicates(),
    ensures
        m@.no_duplicates(),
        m@.len() <= reached@.len(),
        forall|x: u32| #[trigger] m@.contains(x) <==> (reached@.contains(x) && answers(cls@, *me, x)),
{
    let n = reached.len();
    let mut out: Vec<u32> = Vec::new();
    let mut i: usize = 0;
    while i < n
        invariant
            n == reached@.len(),
            reached@.no_duplicates(),
            i <= n,
            out@.len() <= i,
            out@.no_duplicates(),
            forall|x: u32|
                #[trigger] out@.contains(x) <==> (reached@.subrange(0, i as int).contains(x)
                    && answers(cls@, *me, x)),
        decreases n - i,
    {
        let r = reached[i];
        let ghost before = out@;
        if answers_back(cls, me, r) {
            out.push(r);
        }
        proof {
            let a = reached@.subrange(0, i + 1);
            let b = reached@.subrange(0, i as int);
            lemma_prefix_contains(reached@, i as int);
            assert(!b.contains(r)) by {
                if b.contains(r) {
                    let j = choose|j: int| 0 <= j < b.len() && b[j] == r;
                    assert(reached@[j] == reached@[i as int]);
                }
            }
            assert forall|x: u32| #[trigger] out@.contains(x) <==> (before.contains(x) || (x == r
                && answers(cls@, *me, r))) by {
                if out@.contains(x) {
                    let j = choose|j: int| 0 <= j < out@.len() && out@[j] == x;
                    if j < before.len() {
                        assert(before[j] == x);
                    }
                }
                if before.contains(x) {
                    let j = choose|j: int| 0 <= j < before.len() && before[j] == x;
                    assert(out@[j] == x);
                }
                if x == r && answers(cls@, *me, r) {
                    assert(out@[before.len() as int] == x);
                }
            }
            assert forall|p: int, q: int|
                0 <= p < out@.len() && 0 <= q < out@.len() && p != q implies out@[p] != out@[q] by {
                if p == before.len() {
                    assert(before.contains(out@[q]));
                } else if q == before.len() {
                    assert(before.contains(out@[p]));
                }
            }
        }
        i = i + 1;
    }
    assert(reached@.subrange(0, n as int) =~= reached@);
    out
}

/// Number of channels that session `s` listens to.
pub fn listens_count(chs: &Vec<ChannelSnapshot>, s: u32) -> (n: u32)
    requires
        chs@.len() <= u32::MAX,
    ensures
        n == listens_of(chs@, s),
{
    let nc = chs.len();
    let mut count: u32 = 0;
    let mut i: usize = 0;
    while i < nc
        invariant
            nc == chs@.len(),
            nc <= u32::MAX,
            i <= nc,
            count == listens_of(chs@.subrange(0, i as int), s),
            count <= i,
        decreases nc - i,
    {
        assert(chs@.subrange(0, i + 1).drop_last() =~= chs@.subrange(0, i as int));
        if vec_contains(&chs[i].listeners, s) {
            count = count + 1;
        }
        i = i + 1;
    }
    assert(chs@.subrange(0, nc as int) =~= chs@);
    count
}

/// Cardinality of the set of a distinct list.
proof fn lemma_distinct_len(s: Seq<u32>, set: Set<u32>)
    requires
        s.no_duplicates(),
        forall|x: u32| #[trigger] s.contains(x) <==> set.contains(x),
    ensures
        set.finite(),
        set.len() == s.len(),
{
    assert(s.to_set() =~= set);
    s.unique_seq_to_set();
    vstd::seq_lib::seq_to_set_is_finite(s);
}

/// Minimum time between two flags of the same client (nanoseconds).
pub const FLAG_COOLDOWN_NANOS: u64 = 3_000_000_000;

/// What one evaluation found about a client.
pub struct Assessment {
    /// Players reached by the current voice target (itself excluded).
    pub reach_instant: u32,
    /// Distinct targets addressed within the window.
    pub reach_window: u32,
    /// Percentage of reached players that target the client back, or `MUTUALITY_NA`.
    pub mutuality: u32,
    /// Channels listened to.
    pub listens: u32,
    /// High reach with a low mutuality: talking map-wide.
    pub talk_cheat: bool,
    /// Listening to too many channels: spying map-wide.
    pub spy: bool,
}

/// A punishment that the server is to carry out on a session.
pub enum Enforcement {
    Mute(u32),
    Kick(u32),
    /// Persistent ban (IP and name), then disconnection.
    Ban(u32),
}

/// The larger of two values.
pub open spec fn max_u32(a: u32, b: u32) -> u32 {
    if a >= b { a } else { b }
}

/// Percentage of the reached players that target `me` back; `MUTUALITY_NA`
/// when `me` reaches nobody.
pub open spec fn mutuality_of(
    chs: Seq<ChannelSnapshot>,
    cls: Seq<ClientSnapshot>,
    me: ClientSnapshot,
) -> u32 {
    let n = reached_set(chs, cls, me).len();
    if n == 0 {
        MUTUALITY_NA
    } else {
        (mutual_set(chs, cls, me).len() * 100 / n) as u32
    }
}

/// High reach (at least `min_recipients` players, and more than `threshold_pct`
/// percent of the `active` ones) together with a mutuality under the maximum.
pub open spec fn is_talk_cheat(cfg: AnticheatConfig, reach: u32, active: u32, mutuality: u32) -> bool {
    &&& reach >= cfg.min_recipients
    &&& reach * 100 > active * cfg.threshold_pct
    &&& mutuality != MUTUALITY_NA
    &&& mutuality < cfg.mutuality_max_pct
}

/// Listening to more channels than allowed (when that detector is on).
pub open spec fn is_spy(cfg: AnticheatConfig, listens: u32) -> bool {
    cfg.listen_max > 0 && listens > cfg.listen_max
}

/// What an evaluation at time `now` finds about client `i`, whose sliding
/// window held `window` before the evaluation.
pub open spec fn assess(
    cfg: AnticheatConfig,
    chs: Seq<ChannelSnapshot>,
    cls: Seq<ClientSnapshot>,
    i: int,
    window: Map<u64, u64>,
    now: u64,
) -> Assessment {
    let me = cls[i];
    let ri = reached_set(chs, cls, me).len() as u32;
    let rw = fresh_part(window, now, cfg.window_span()).dom().len() as u32;
    let m = mutuality_of(chs, cls, me);
    let l = listens_of(chs, me.session) as u32;
    Assessment {
        reach_instant: ri,
        reach_window: rw,
        mutuality: m,
        listens: l,
        talk_cheat: is_talk_cheat(cfg, max_u32(ri, rw), cls.len() as u32, m),
        spy: is_spy(cfg, l),
    }
}

/// The reach used by the decision: the larger of the instant and window reaches.
pub open spec fn reach_of(a: Assessment) -> u32 {
    max_u32(a.reach_instant, a.reach_window)
}

/// Whether the evaluation found the client suspicious.
pub open spec fn suspicious(a: Assessment) -> bool {
    a.talk_cheat || a.spy
}

/// Strikes after an evaluation: the number of consecutive suspicious
/// evaluations, so one more when suspicious and none after a clean one.
pub open spec fn strikes_after(strikes: u32, suspicious: bool) -> u32 {
    if suspicious {
        vstd::wrapping::u32_specs::wrapping_add(strikes, 1)
    } else {
        0
    }
}

/// Whether the suspicion has lasted long enough to act on.
pub open spec fn escalates(cfg: AnticheatConfig, a: Assessment, strikes: u32) -> bool {
    suspicious(a) && strikes_after(strikes, true) >= at_least(cfg.strikes_required, 1)
}

/// What an escalation adds to the score: the listens for pure spying, the reach otherwise.
pub open spec fn metric(a: Assessment) -> u32 {
    if a.spy && !a.talk_cheat {
        a.listens
    } else {
        reach_of(a)
    }
}

/// The score after an evaluation.
pub open spec fn score_after(cfg: AnticheatConfig, a: Assessment, c: ClientCounters) -> u64 {
    if escalates(cfg, a, c.strikes) {
        vstd::wrapping::u64_specs::wrapping_add(c.score, metric(a) as u64)
    } else {
        c.score
    }
}

/// Whether the last flag (if any) lies at least the cooldown before `now`.
pub open spec fn cooled_down(last: Option<u64>, now: u64) -> bool {
    match last {
        Some(t) => elapsed(now, t) >= FLAG_COOLDOWN_NANOS,
        None => true,
    }
}

/// Whether the evaluation flags the client.
pub open spec fn flagged(cfg: AnticheatConfig, a: Assessment, c: ClientCounters, now: u64) -> bool {
    escalates(cfg, a, c.strikes) && cooled_down(c.last_flag, now)
}

/// The reason given for a flag.
pub open spec fn reason_text(a: Assessment) -> Seq<char> {
    if a.talk_cheat && a.spy {
        "talk+listen map-wide"@
    } else if a.talk_cheat {
        "talk map-wide (mutualité faible)"@
    } else {
        "listen map-wide (espionnage)"@
    }
}

/// The mutuality as shown in the log.
pub open spec fn mutuality_text(m: u32) -> Seq<char> {
    if m == MUTUALITY_NA {
        "n/a"@
    } else {
        decimal(m as nat) + "%"@
    }
}

/// What happens to a flagged client, as shown in the log.
pub open spec fn outcome_text(exempt: bool, action: u8) -> Seq<char> {
    if exempt {
        "exempt"@
    } else {
        action_text(action)
    }
}

/// The log line of a flag.
pub open spec fn flag_line(
    wall_secs: u64,
    name: Seq<char>,
    reason: Seq<char>,
    reach: u32,
    active: u32,
    mutuality: u32,
    listens: u32,
    score: u64,
    outcome: Seq<char>,
) -> Seq<char> {
    hms_text(wall_secs as nat) + " "@ + name + " — "@ + reason + " — reach "@ + decimal(reach as nat)
        + "/"@ + decimal(active as nat) + ", mut "@ + mutuality_text(mutuality) + ", listens "@
        + decimal(listens as nat) + " (score "@ + decimal(score as nat) + ") → "@ + outcome
}

/// The log line written when client `i` is flagged.
pub open spec fn line_of(
    cfg: AnticheatConfig,
    cls: Seq<ClientSnapshot>,
    i: int,
    a: Assessment,
    c: ClientCounters,
    wall_secs: u64,
) -> Seq<char> {
    flag_line(
        wall_secs,
        cls[i].name@,
        reason_text(a),
        reach_of(a),
        cls.len() as u32,
        a.mutuality,
        a.listens,
        score_after(cfg, a, c),
        outcome_text(c.exempt, cfg.action),
    )
}

/// The punishment that a flag of client `i` calls for, if any.
pub open spec fn enforcement_of(
    cfg: AnticheatConfig,
    cls: Seq<ClientSnapshot>,
    i: int,
    a: Assessment,
    c: ClientCounters,
    now: u64,
) -> Option<Enforcement> {
    if flagged(cfg, a, c, now) && !c.exempt && cfg.action == ACTION_MUTE {
        Some(Enforcement::Mute(cls[i].session))
    } else if flagged(cfg, a, c, now) && !c.exempt && cfg.action == ACTION_KICK {
        Some(Enforcement::Kick(cls[i].session))
    } else if flagged(cfg, a, c, now) && !c.exempt && cfg.action == ACTION_BAN {
        Some(Enforcement::Ban(cls[i].session))
    } else {
        None
    }
}

/// How an evaluation at time `now` turns the counters `old_c` of client `i` into `new_c`.
pub open spec fn client_updated(
    cfg: AnticheatConfig,
    chs: Seq<ChannelSnapshot>,
    cls: Seq<ClientSnapshot>,
    i: int,
    old_c: ClientCounters,
    new_c: ClientCounters,
    now: u64,
) -> bool {
    let a = assess(cfg, chs, cls, i, old_c.window@, now);
    let f = flagged(cfg, a, old_c, now);
    &&& new_c.window@ == fresh_part(old_c.window@, now, cfg.window_span())
    &&& new_c.reach_instant == a.reach_instant
    &&& new_c.reach_window == a.reach_window
    &&& new_c.mutuality == a.mutuality
    &&& new_c.listen_count == a.listens
    &&& new_c.strikes == strikes_after(old_c.strikes, suspicious(a))
    &&& new_c.score == score_after(cfg, a, old_c)
    &&& new_c.flags == if f {
        vstd::wrapping::u32_specs::wrapping_add(old_c.flags, 1)
    } else {
        old_c.flags
    }
    &&& new_c.last_flag == if f {
        Some(now)
    } else {
        old_c.last_flag
    }
    &&& new_c.max_recipients == old_c.max_recipients
    &&& new_c.exempt == old_c.exempt
    &&& new_c.pos_jumps == old_c.pos_jumps
    &&& new_c.far_targets == old_c.far_targets
    &&& new_c.heard == old_c.heard
}

/// Builds the log line of a flag.
fn build_flag_line(
    wall_secs: u64,
    name: &str,
    reason: &str,
    reach: u32,
    active: u32,
    mutuality: u32,
    listens: u32,
    score: u64,
    outcome: &str,
) -> (s: String)
    ensures
        s@ == flag_line(
            wall_secs,
            name@,
            reason@,
            reach,
            active,
            mutuality,
            listens,
            score,
            outcome@,
        ),
{
    let mut out = format_hms(wall_secs);
    push_str(&mut out, " ");
    push_str(&mut out, name);
    push_str(&mut out, " — ");
    push_str(&mut out, reason);
    push_str(&mut out, " — reach ");
    push_decimal(&mut out, reach as u64);
    push_str(&mut out, "/");
    push_decimal(&mut out, active as u64);
    push_str(&mut out, ", mut ");
    if mutuality == MUTUALITY_NA {
        push_str(&mut out, "n/a");
    } else {
        push_decimal(&mut out, mutuality as u64);
        push_str(&mut out, "%");
    }
    push_str(&mut out, ", listens ");
    push_decimal(&mut out, listens as u64);
    push_str(&mut out, " (score ");
    push_decimal(&mut out, score);
    push_str(&mut out, ") → ");
    push_str(&mut out, outcome);
    out
}

impl AnticheatConfig {
    /// Flags a client whose suspicion escalated: unless a flag was raised less
    /// than the cooldown ago, counts the flag, logs it, and says what to
    /// enforce and, when a webhook is configured, what notice to send.
    pub fn flag(
        &mut self,
        now: u64,
        wall_secs: u64,
        me: &ClientSnapshot,
        c: &mut ClientCounters,
        a: &Assessment,
        active: u32,
    ) -> (r: (Option<Enforcement>, Option<String>))
        ensures
            final(self).settings_eq(old(self)),
            ({
                let cool = cooled_down(old(c).last_flag, now);
                let e = r.0;
                let line = flag_line(
                    wall_secs,
                    me.name@,
                    reason_text(*a),
                    reach_of(*a),
                    active,
                    a.mutuality,
                    a.listens,
                    old(c).score,
                    outcome_text(old(c).exempt, old(self).action),
                );
                &&& (r.1 is Some <==> (cool && old(self).webhook is Some))
                &&& (r.1 matches Some(t) ==> t@ == notice_text(wall_secs, line))
                &&& final(c).flags == if cool {
                    vstd::wrapping::u32_specs::wrapping_add(old(c).flags, 1)
                } else {
                    old(c).flags
                }
                &&& final(c).last_flag == if cool {
                    Some(now)
                } else {
                    old(c).last_flag
                }
                &&& final(self).log() == if cool {
                    ring_push(
                        old(self).log(),
                        flag_line(
                            wall_secs,
                            me.name@,
                            reason_text(*a),
                            reach_of(*a),
                            active,
                            a.mutuality,
                            a.listens,
                            old(c).score,
                            outcome_text(old(c).exempt, old(self).action),
                        ),
                    )
                } else {
                    old(self).log()
                }
                &&& e == if cool && !old(c).exempt && old(self).action == ACTION_MUTE {
                    Some(Enforcement::Mute(me.session))
                } else if cool && !old(c).exempt && old(self).action == ACTION_KICK {
                    Some(Enforcement::Kick(me.session))
                } else if cool && !old(c).exempt && old(self).action == ACTION_BAN {
                    Some(Enforcement::Ban(me.session))
                } else {
                    None
                }
            }),
            final(c).window == old(c).window,
            final(c).reach_instant == old(c).reach_instant,
            final(c).reach_window == old(c).reach_window,
            final(c).mutuality == old(c).mutuality,
            final(c).listen_count == old(c).listen_count,
            final(c).strikes == old(c).strikes,
            final(c).score == old(c).score,
            final(c).max_recipients == old(c).max_recipients,
            final(c).exempt == old(c).exempt,
            final(c).pos_jumps == old(c).pos_jumps,
            final(c).far_targets == old(c).far_targets,
            final(c).heard == old(c).heard,
    {
        let cool = match c.last_flag {
            Some(t) => {
                let gap = if now >= t { now - t } else { 0 };
                gap >= FLAG_COOLDOWN_NANOS
            },
            None => true,
        };
        if !cool {
            return (None, None);
        }
        c.last_flag = Some(now);
        c.flags = c.flags.wrapping_add(1);
        let reason = if a.talk_cheat && a.spy {
            "talk+listen map-wide"
        } else if a.talk_cheat {
            "talk map-wide (mutualité faible)"
        } else {
            "listen map-wide (espionnage)"
        };
        let outcome = if c.exempt { "exempt" } else { crate::actions::action_name(self.action) };
        let reach = if a.reach_instant >= a.reach_window { a.reach_instant } else { a.reach_window };
        let line = build_flag_line(
            wall_secs,
            me.name.as_str(),
            reason,
            reach,
            active,
            a.mutuality,
            a.listens,
            c.score,
            outcome,
        );
        let notice = if self.webhook.is_some() {
            Some(build_notice(wall_secs, line.as_str()))
        } else {
            None
        };
        self.push_log(line);
        if c.exempt {
            return (None, notice);
        }
        let e = if self.action == ACTION_MUTE {
            Some(Enforcement::Mute(me.session))
        } else if self.action == ACTION_KICK {
            Some(Enforcement::Kick(me.session))
        } else if self.action == ACTION_BAN {
            Some(Enforcement::Ban(me.session))
        } else {
            None
        };
        (e, notice)
    }
}

impl AnticheatConfig {
    /// Evaluates client `i` at time `now`: its reaches, mutuality and listens,
    /// then its strikes, score and possible flag.
    fn evaluate_client(
        &mut self,
        now: u64,
        wall_secs: u64,
        chs: &Vec<ChannelSnapshot>,
        cls: &Vec<ClientSnapshot>,
        i: usize,
        c: &mut ClientCounters,
        connected: &HashSet<u32>,
    ) -> (r: (Option<Enforcement>, Option<String>))
        requires
            i < cls@.len(),
            chs@.len() <= u32::MAX,
            forall|s: u32| #[trigger] connected@.contains(s) <==> is_connected(cls@, s),
        ensures
            final(self).settings_eq(old(self)),
            client_updated(*old(self), chs@, cls@, i as int, *old(c), *final(c), now),
            ({
                let a = assess(*old(self), chs@, cls@, i as int, old(c).window@, now);
                &&& final(self).log() == if flagged(*old(self), a, *old(c), now) {
                    ring_push(old(self).log(), line_of(*old(self), cls@, i as int, a, *old(c), wall_secs))
                } else {
                    old(self).log()
                }
                &&& r.0 == enforcement_of(*old(self), cls@, i as int, a, *old(c), now)
                &&& (r.1 is Some <==> (flagged(*old(self), a, *old(c), now) && old(self).webhook is Some))
                &&& (r.1 matches Some(t) ==> t@ == notice_text(
                    wall_secs,
                    line_of(*old(self), cls@, i as int, a, *old(c), wall_secs),
                ))
            }),
    {
        let ghost a = assess(*self, chs@, cls@, i as int, c.window@, now);
        let me = &cls[i];
        let reached = reached_sessions(chs, cls, me, connected);
        proof {
            lemma_distinct_len(reached@, reached_set(chs@, cls@, *me));
        }
        let reached_len = reached.len();
        let reach_instant = reached_len as u32;
        let span = self.window_span_exec();
        c.window.retain_fresh(now, span);
        let reach_window = c.window.len() as u32;
        let reach = if reach_instant >= reach_window { reach_instant } else { reach_window };
        let mutuality: u32 = if reached_len == 0 {
            MUTUALITY_NA
        } else {
            let mutual = mutual_sessions(cls, me, &reached);
            proof {
                lemma_distinct_len(mutual@, mutual_set(chs@, cls@, *me));
            }
            let m = mutual.len() as u128;
            let n = reached_len as u128;
            assert((m as int) * 100 / (n as int) <= 100) by (nonlinear_arith)
                requires
                    m <= n,
                    n > 0,
            ;
            ((m * 100) / n) as u32
        };
        let listens = listens_count(chs, me.session);
        c.reach_instant = reach_instant;
        c.reach_window = reach_window;
        c.mutuality = mutuality;
        c.listen_count = listens;
        let active = cls.len() as u32;
        let t = self.threshold_pct;
        assert((active as u64) * (t as u64) <= u64::MAX) by (nonlinear_arith)
            requires
                active <= u32::MAX,
                t <= u32::MAX,
        ;
        let high_reach = reach >= self.min_recipients && (reach as u64) * 100 > (active as u64)
            * (self.threshold_pct as u64);
        let talk_cheat = high_reach && mutuality != MUTUALITY_NA && mutuality
            < self.mutuality_max_pct;
        let spy = self.listen_max > 0 && listens > self.listen_max;
        let found = Assessment { reach_instant, reach_window, mutuality, listens, talk_cheat, spy };
        assert(found == a);
        if talk_cheat || spy {
            let strikes = c.strikes.wrapping_add(1);
            c.strikes = strikes;
            let required = if self.strikes_required < 1 { 1 } else { self.strikes_required };
            if strikes >= required {
                let metric = if spy && !talk_cheat { listens } else { reach };
                c.score = c.score.wrapping_add(metric as u64);
                return self.flag(now, wall_secs, me, c, &found, active);
            }
        } else {
            c.strikes = 0;
        }
        (None, None)
    }
}

/// The log lines written while evaluating clients `0..k` (whose counters
/// before the evaluation are `olds`), in order.
pub open spec fn flag_lines(
    cfg: AnticheatConfig,
    chs: Seq<ChannelSnapshot>,
    cls: Seq<ClientSnapshot>,
    olds: Seq<ClientCounters>,
    now: u64,
    wall_secs: u64,
    k: int,
) -> Seq<Seq<char>>
    decreases k,
{
    if k <= 0 {
        Seq::empty()
    } else {
        let prev = flag_lines(cfg, chs, cls, olds, now, wall_secs, k - 1);
        let a = assess(cfg, chs, cls, k - 1, olds[k - 1].window@, now);
        if flagged(cfg, a, olds[k - 1], now) {
            prev.push(line_of(cfg, cls, k - 1, a, olds[k - 1], wall_secs))
        } else {
            prev
        }
    }
}

/// A detection notice for the webhook: the flag line, preceded by the date
/// and time of the detection as a Discord timestamp (`<t:SECONDS:F>`, shown
/// to each reader as a full date and time).
pub open spec fn notice_text(wall_secs: u64, line: Seq<char>) -> Seq<char> {
    "<t:"@ + decimal(wall_secs as nat) + ":F> "@ + line
}

/// Builds the webhook notice of a flag line.
fn build_notice(wall_secs: u64, line: &str) -> (s: String)
    ensures
        s@ == notice_text(wall_secs, line@),
{
    let mut out = String::new();
    push_str(&mut out, "<t:");
    push_decimal(&mut out, wall_secs);
    push_str(&mut out, ":F> ");
    push_str(&mut out, line);
    out
}

/// The notifications sent while evaluating clients `0..k`: the notices of the
/// flag lines when a webhook is configured.
pub open spec fn notifications(
    cfg: AnticheatConfig,
    chs: Seq<ChannelSnapshot>,
    cls: Seq<ClientSnapshot>,
    olds: Seq<ClientCounters>,
    now: u64,
    wall_secs: u64,
    k: int,
) -> Seq<Seq<char>> {
    if cfg.webhook is Some {
        flag_lines(cfg, chs, cls, olds, now, wall_secs, k).map_values(
            |l: Seq<char>| notice_text(wall_secs, l),
        )
    } else {
        Seq::empty()
    }
}

/// What an evaluation asks of the server: punishments to carry out and
/// detection notices to send to the webhook, each in client order.
pub struct SampleReport {
    pub enforcements: Vec<Enforcement>,
    pub notifications: Vec<String>,
}

/// The punishments called for while evaluating clients `0..k`, in order.
pub open spec fn enforcements(
    cfg: AnticheatConfig,
    chs: Seq<ChannelSnapshot>,
    cls: Seq<ClientSnapshot>,
    olds: Seq<ClientCounters>,
    now: u64,
    k: int,
) -> Seq<Enforcement>
    decreases k,
{
    if k <= 0 {
        Seq::empty()
    } else {
        let prev = enforcements(cfg, chs, cls, olds, now, k - 1);
        let a = assess(cfg, chs, cls, k - 1, olds[k - 1].window@, now);
        match enforcement_of(cfg, cls, k - 1, a, olds[k - 1], now) {
            Some(e) => prev.push(e),
            None => prev,
        }
    }
}

impl AnticheatConfig {
    /// Periodic evaluation of every client at time `now` (`wall_secs` gives the
    /// time of day for the log): for each client, in order, its reach, window
    /// reach, mutuality and listens are recomputed, its strikes and score
    /// updated, and it is flagged when its suspicion has lasted long enough.
    /// `counters[i]` is the state of the client described by `clients[i]`.
    /// Returns the punishments to carry out and the notices for the webhook,
    /// in client order. Does nothing while disabled or when nobody is connected.
    pub fn sample_at(
        &mut self,
        now: u64,
        wall_secs: u64,
        channels: &Vec<ChannelSnapshot>,
        clients: &Vec<ClientSnapshot>,
        counters: &mut Vec<ClientCounters>,
    ) -> (out: SampleReport)
        requires
            old(counters)@.len() == clients@.len(),
            channels@.len() <= u32::MAX,
        ensures
            final(self).settings_eq(old(self)),
            final(counters)@.len() == old(counters)@.len(),
            (!old(self).enabled || clients@.len() == 0) ==> {
                &&& final(counters)@ == old(counters)@
                &&& final(self).log() == old(self).log()
                &&& out.enforcements@.len() == 0
                &&& out.notifications@.len() == 0
            },
            (old(self).enabled && clients@.len() > 0) ==> {
                &&& forall|i: int|
                    0 <= i < clients@.len() ==> client_updated(
                        *old(self),
                        channels@,
                        clients@,
                        i,
                        #[trigger] old(counters)@[i],
                        final(counters)@[i],
                        now,
                    )
                &&& final(self).log() == ring_push_all(
                    old(self).log(),
                    flag_lines(
                        *old(self),
                        channels@,
                        clients@,
                        old(counters)@,
                        now,
                        wall_secs,
                        clients@.len() as int,
                    ),
                )
                &&& out.enforcements@ == enforcements(
                    *old(self),
                    channels@,
                    clients@,
                    old(counters)@,
                    now,
                    clients@.len() as int,
                )
                &&& texts(out.notifications@) == notifications(
                    *old(self),
                    channels@,
                    clients@,
                    old(counters)@,
                    now,
                    wall_secs,
                    clients@.len() as int,
                )
            },
    {
        let mut out = SampleReport { enforcements: Vec::new(), notifications: Vec::new() };
        if !self.enabled {
            return out;
        }
        let n = clients.len();
        if n == 0 {
            return out;
        }
        let connected = connected_sessions(clients);
        let ghost cfg = *self;
        let ghost olds = counters@;
        let ghost log0 = self.log();
        let mut i: usize = 0;
        while i < n
            invariant
                n == clients@.len(),
                n == counters@.len(),
                olds.len() == n,
                channels@.len() <= u32::MAX,
                i <= n,
                self.settings_eq(&cfg),
                forall|s: u32| #[trigger] connected@.contains(s) <==> is_connected(clients@, s),
                forall|j: int|
                    0 <= j < i ==> client_updated(
                        cfg,
                        channels@,
                        clients@,
                        j,
                        #[trigger] olds[j],
                        counters@[j],
                        now,
                    ),
                forall|j: int| i <= j < n ==> #[trigger] counters@[j] == olds[j],
                self.log() == ring_push_all(
                    log0,
                    flag_lines(cfg, channels@, clients@, olds, now, wall_secs, i as int),
                ),
                out.enforcements@ == enforcements(cfg, channels@, clients@, olds, now, i as int),
                texts(out.notifications@) == notifications(
                    cfg,
                    channels@,
                    clients@,
                    olds,
                    now,
                    wall_secs,
                    i as int,
                ),
            decreases n - i,
        {
            let (e, notice) = self.evaluate_client(
                now,
                wall_secs,
                channels,
                clients,
                i,
                &mut counters[i],
                &connected,
            );
            proof {
                let lines = flag_lines(cfg, channels@, clients@, olds, now, wall_secs, i as int);
                let a = assess(cfg, channels@, clients@, i as int, olds[i as int].window@, now);
                if flagged(cfg, a, olds[i as int], now) {
                    let l = line_of(cfg, clients@, i as int, a, olds[i as int], wall_secs);
                    assert(lines.push(l).drop_last() =~= lines);
                    assert(lines.push(l).map_values(|x: Seq<char>| notice_text(wall_secs, x))
                        =~= lines.map_values(|x: Seq<char>| notice_text(wall_secs, x)).push(
                        notice_text(wall_secs, l),
                    ));
                }
            }
            match e {
                Some(x) => out.enforcements.push(x),
                None => {},
            }
            match notice {
                Some(t) => {
                    let ghost before = out.notifications@;
                    out.notifications.push(t);
                    proof {
                        assert(texts(out.notifications@) =~= texts(before).push(t@));
                    }
                },
                None => {},
            }
            i = i + 1;
        }
        out
    }

    /// Periodic evaluation of every client, at the current time of the
    /// configuration's clock; the log gives the time of day of the system clock.
    pub fn sample(
        &mut self,
        channels: &Vec<ChannelSnapshot>,
        clients: &Vec<ClientSnapshot>,
        counters: &mut Vec<ClientCounters>,
    ) -> (out: SampleReport)
        requires
            old(counters)@.len() == clients@.len(),
            channels@.len() <= u32::MAX,
        ensures
            final(self).settings_eq(old(self)),
            final(counters)@.len() == old(counters)@.len(),
            (!old(self).enabled || clients@.len() == 0) ==> {
                &&& final(counters)@ == old(counters)@
                &&& final(self).log() == old(self).log()
                &&& out.enforcements@.len() == 0
                &&& out.notifications@.len() == 0
            },
            (old(self).enabled && clients@.len() > 0) ==> exists|now: u64, wall_secs: u64|
                {
                    &&& forall|i: int|
                        0 <= i < clients@.len() ==> client_updated(
                            *old(self),
                            channels@,
                            clients@,
                            i,
                            #[trigger] old(counters)@[i],
                            final(counters)@[i],
                            now,
                        )
                    &&& final(self).log() == ring_push_all(
                        old(self).log(),
                        flag_lines(
                            *old(self),
                            channels@,
                            clients@,
                            old(counters)@,
                            now,
                            wall_secs,
                            clients@.len() as int,
                        ),
                    )
                    &&& out.enforcements@ == enforcements(
                        *old(self),
                        channels@,
                        clients@,
                        old(counters)@,
                        now,
                        clients@.len() as int,
                    )
                    &&& texts(out.notifications@) == notifications(
                        *old(self),
                        channels@,
                        clients@,
                        old(counters)@,
                        now,
                        wall_secs,
                        clients@.len() as int,
                    )
                },
    {
        let now = self.clock.now_nanos();
        let wall_secs = unix_secs_now();
        self.sample_at(now, wall_secs, channels, clients, counters)
    }
}

} // verus!
