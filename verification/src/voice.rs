use vstd::prelude::*;
use crate::seqs::lemma_prefix_contains;
use std::collections::HashSet;
use vstd::std_specs::hash::group_hash_axioms;

use crate::actions::{key_channel, key_session, session_key_base};
use crate::sampler::{add_all_reached, add_reached, in_channel, vec_contains, ChannelSnapshot};

verus! {

broadcast use group_hash_axioms;

/// One entry of a VoiceTarget message: sessions to whisper to, and possibly a channel.
pub struct TargetItem {
    pub sessions: Vec<u32>,
    pub channel_id: Option<u32>,
}

/// What a VoiceTarget message installs in the client's target slot, and the
/// window keys it feeds to the anticheat.
pub struct TargetUpdate {
    /// The target slot (1..=30).
    pub id: u8,
    /// Distinct sessions of the target.
    pub sessions: Vec<u32>,
    /// Distinct channels of the target.
    pub channels: Vec<u32>,
    /// Window keys of every addressed session and channel, in message order.
    pub keys: Vec<u64>,
}

/// Why a VoiceTarget message is refused.
pub enum VoiceTargetError {
    /// The id lies outside the usable slots 1..=30.
    InvalidVoiceTarget,
}

/// The window keys of one target item: its sessions, then its channel.
pub open spec fn item_keys(it: TargetItem) -> Seq<u64> {
    it.sessions@.map_values(|s: u32| (session_key_base() + s) as u64) + match it.channel_id {
        Some(c) => seq![c as u64],
        None => Seq::<u64>::empty(),
    }
}

/// The window keys of a VoiceTarget message, in order.
pub open spec fn message_keys(items: Seq<TargetItem>) -> Seq<u64>
    decreases items.len(),
{
    if items.len() == 0 {
        Seq::empty()
    } else {
        message_keys(items.drop_last()) + item_keys(items.last())
    }
}

/// Whether some item of the message addresses session `s`.
pub open spec fn names_session(items: Seq<TargetItem>, s: u32) -> bool {
    exists|i: int| 0 <= i < items.len() && #[trigger] items[i].sessions@.contains(s)
}

/// Whether some item of the message addresses channel `c`.
pub open spec fn names_channel(items: Seq<TargetItem>, c: u32) -> bool {
    exists|i: int| 0 <= i < items.len() && #[trigger] items[i].channel_id == Some(c)
}

/// Checks a VoiceTarget message and computes what it installs: slots outside
/// 1..=30 are refused.
pub fn build_voice_target(id: u32, items: &Vec<TargetItem>) -> (r: Result<TargetUpdate, VoiceTargetError>)
    ensures
        (id < 1 || id >= 31) <==> r is Err,
        r matches Ok(u) ==> {
            &&& u.id == id
            &&& u.sessions@.no_duplicates()
            &&& u.channels@.no_duplicates()
            &&& forall|s: u32| #[trigger] u.sessions@.contains(s) <==> names_session(items@, s)
            &&& forall|c: u32| #[trigger] u.channels@.contains(c) <==> names_channel(items@, c)
            &&& u.keys@ == message_keys(items@)
        },
{
    if id < 1 || id >= 31 {
        return Err(VoiceTargetError::InvalidVoiceTarget);
    }
    let mut seen_s: HashSet<u32> = HashSet::new();
    let mut sessions: Vec<u32> = Vec::new();
    let mut seen_c: HashSet<u32> = HashSet::new();
    let mut channels: Vec<u32> = Vec::new();
    let mut keys: Vec<u64> = Vec::new();
    let n = items.len();
    let mut i: usize = 0;
    while i < n
        invariant
            n == items@.len(),
            i <= n,
            sessions@.no_duplicates(),
            channels@.no_duplicates(),
            forall|x: u32| seen_s@.contains(x) <==> sessions@.contains(x),
            forall|x: u32| seen_c@.contains(x) <==> channels@.contains(x),
            forall|s: u32| #[trigger]
                sessions@.contains(s) <==> names_session(items@.subrange(0, i as int), s),
            forall|c: u32| #[trigger]
                channels@.contains(c) <==> names_channel(items@.subrange(0, i as int), c),
            keys@ == message_keys(items@.subrange(0, i as int)),
        decreases n - i,
    {
        let it = &items[i];
        let ghost before_s = sessions@;
        let ghost before_c = channels@;
        let ghost before_k = keys@;
        add_all_reached(&mut seen_s, &mut sessions, &it.sessions, None);
        let ns = it.sessions.len();
        let mut j: usize = 0;
        while j < ns
            invariant
                ns == it.sessions@.len(),
                j <= ns,
                keys@ == before_k + it.sessions@.subrange(0, j as int).map_values(
                    |s: u32| (session_key_base() + s) as u64,
                ),
            decreases ns - j,
        {
            let k = key_session(it.sessions[j]);
            keys.push(k);
            assert(it.sessions@.subrange(0, j + 1).map_values(|s: u32| (session_key_base() + s) as u64)
                =~= it.sessions@.subrange(0, j as int).map_values(
                |s: u32| (session_key_base() + s) as u64,
            ).push(k));
            j = j + 1;
        }
        assert(it.sessions@.subrange(0, ns as int) =~= it.sessions@);
        match it.channel_id {
            Some(c) => {
                add_reached(&mut seen_c, &mut channels, c, None);
                keys.push(key_channel(c));
            },
            None => {},
        }
        proof {
            let pre = items@.subrange(0, i as int);
            let post = items@.subrange(0, i + 1);
            assert(post.drop_last() =~= pre);
            assert(keys@ =~= message_keys(post));
            assert forall|s: u32| #[trigger] sessions@.contains(s) <==> names_session(post, s) by {
                if names_session(post, s) {
                    let x = choose|x: int| 0 <= x < post.len() && #[trigger] post[x].sessions@.contains(s);
                    if x < i {
                        assert(pre[x] == post[x]);
                    }
                }
                if names_session(pre, s) {
                    let x = choose|x: int| 0 <= x < pre.len() && #[trigger] pre[x].sessions@.contains(s);
                    assert(post[x] == pre[x]);
                }
                if it.sessions@.contains(s) {
                    assert(post[i as int] == *it);
                }
            }
            assert forall|c: u32| #[trigger] channels@.contains(c) <==> names_channel(post, c) by {
                if names_channel(post, c) {
                    let x = choose|x: int| 0 <= x < post.len() && #[trigger] post[x].channel_id == Some(c);
                    if x < i {
                        assert(pre[x] == post[x]);
                    }
                }
                if names_channel(pre, c) {
                    let x = choose|x: int| 0 <= x < pre.len() && #[trigger] pre[x].channel_id == Some(c);
                    assert(post[x] == pre[x]);
                }
                if it.channel_id == Some(c) {
                    assert(post[i as int] == *it);
                }
            }
        }
        i = i + 1;
    }
    assert(items@.subrange(0, n as int) =~= items@);
    Ok(TargetUpdate { id: id as u8, sessions, channels, keys })
}

/// The whisper target installed in one of a client's target slots.
pub struct VoiceSlot {
    pub sessions: Vec<u32>,
    pub channels: Vec<u32>,
}

/// Where an audio packet goes.
pub enum VoiceRoute {
    /// Target 31: back to the speaker only.
    Loopback,
    /// The distinct sessions that receive the packet (the speaker never among them).
    Deliver(Vec<u32>),
    /// A target above 31: nobody receives the packet.
    Invalid,
}

/// Whether `s` sits in a channel with id `id` (listeners excluded).
pub open spec fn sits_in(chs: Seq<ChannelSnapshot>, id: u32, s: u32) -> bool {
    exists|i: int| 0 <= i < chs.len() && chs[i].id == id && #[trigger] chs[i].clients@.contains(s)
}

/// Whether `s` sits in or listens to a channel whose id is among `ids`.
pub open spec fn member_of_any(chs: Seq<ChannelSnapshot>, ids: Seq<u32>, s: u32) -> bool {
    exists|k: int, i: int|
        #![trigger ids[k], in_channel(chs[i], s)]
        0 <= k < ids.len() && 0 <= i < chs.len() && chs[i].id == ids[k] && in_channel(chs[i], s)
}

/// Whether an audio packet sent by `me` (in channel `my_channel`) to `target`
/// reaches session `s`, given the speaker's whisper `slot` for that target and
/// the `connected` sessions.
pub open spec fn receives(
    target: u8,
    me: u32,
    my_channel: u32,
    chs: Seq<ChannelSnapshot>,
    slot: Option<VoiceSlot>,
    connected: Seq<u32>,
    s: u32,
) -> bool {
    &&& s != me
    &&& if target == 0 {
        sits_in(chs, my_channel, s)
    } else {
        match slot {
            Some(t) => (t.sessions@.contains(s) && connected.contains(s)) || member_of_any(
                chs,
                t.channels@,
                s,
            ),
            None => false,
        }
    }
}

/// Routes an audio packet of `me` (sitting in `my_channel`) to `target`: 0 is
/// the speaker's channel, 1..=30 the whisper target `slot` (its connected
/// sessions, and the members and listeners of its channels), 31 loopback.
pub fn voice_recipients(
    target: u8,
    me: u32,
    my_channel: u32,
    chs: &Vec<ChannelSnapshot>,
    slot: Option<&VoiceSlot>,
    connected: &Vec<u32>,
) -> (r: VoiceRoute)
    ensures
        target == 31 <==> r is Loopback,
        target > 31 <==> r is Invalid,
        r matches VoiceRoute::Deliver(v) ==> {
            &&& v@.no_duplicates()
            &&& forall|s: u32| #[trigger]
                v@.contains(s) <==> receives(
                    target,
                    me,
                    my_channel,
                    chs@,
                    match slot {
                        Some(t) => Some(*t),
                        None => None,
                    },
                    connected@,
                    s,
                )
        },
{
    if target == 31 {
        return VoiceRoute::Loopback;
    }
    if target > 31 {
        return VoiceRoute::Invalid;
    }
    let ghost gslot = match slot {
        Some(t) => Some(*t),
        None => None,
    };
    let mut seen: HashSet<u32> = HashSet::new();
    let mut out: Vec<u32> = Vec::new();
    let nc = chs.len();
    if target == 0 {
        let mut i: usize = 0;
        while i < nc
            invariant
                nc == chs@.len(),
                i <= nc,
                out@.no_duplicates(),
                forall|x: u32| seen@.contains(x) <==> out@.contains(x),
                forall|x: u32| #[trigger]
                    out@.contains(x) <==> (x != me && exists|c: int|
                        0 <= c < i && chs@[c].id == my_channel && #[trigger] chs@[c].clients@.contains(x)),
            decreases nc - i,
        {
            let ghost before = out@;
            if chs[i].id == my_channel {
                add_all_reached(&mut seen, &mut out, &chs[i].clients, Some(me));
            }
            proof {
                assert forall|x: u32| #[trigger]
                    out@.contains(x) <==> (x != me && exists|c: int|
                        0 <= c < i + 1 && chs@[c].id == my_channel && #[trigger] chs@[c].clients@.contains(x)) by {
                    if exists|c: int|
                        0 <= c < i + 1 && chs@[c].id == my_channel && #[trigger] chs@[c].clients@.contains(x) {
                        let c = choose|c: int|
                            0 <= c < i + 1 && chs@[c].id == my_channel && #[trigger] chs@[c].clients@.contains(x);
                        if c < i {
                            assert(exists|c: int|
                                0 <= c < i && chs@[c].id == my_channel && #[trigger] chs@[c].clients@.contains(x));
                        }
                    }
                    if before.contains(x) {
                        let c = choose|c: int|
                            0 <= c < i && chs@[c].id == my_channel && #[trigger] chs@[c].clients@.contains(x);
                        assert(0 <= c < i + 1 && chs@[c].id == my_channel && chs@[c].clients@.contains(x));
                    }
                    if out@.contains(x) && !before.contains(x) {
                        assert(0 <= i < i + 1 && chs@[i as int].id == my_channel && chs@[i as int].clients@.contains(x));
                    }
                }
            }
            i = i + 1;
        }
        return VoiceRoute::Deliver(out);
    }
    match slot {
        None => {
            return VoiceRoute::Deliver(out);
        },
        Some(t) => {
            let ns = t.sessions.len();
            let mut j: usize = 0;
            while j < ns
                invariant
                    ns == t.sessions@.len(),
                    j <= ns,
                    out@.no_duplicates(),
                    forall|x: u32| seen@.contains(x) <==> out@.contains(x),
                    forall|x: u32| #[trigger]
                        out@.contains(x) <==> (x != me && t.sessions@.subrange(0, j as int).contains(x)
                            && connected@.contains(x)),
                decreases ns - j,
            {
                let s = t.sessions[j];
                if vec_contains(connected, s) {
                    add_reached(&mut seen, &mut out, s, Some(me));
                }
                proof {
                    lemma_prefix_contains(t.sessions@, j as int);
                }
                j = j + 1;
            }
            assert(t.sessions@.subrange(0, ns as int) =~= t.sessions@);
            let ids = &t.channels;
            let nk = ids.len();
            let mut k: usize = 0;
            while k < nk
                invariant
                    nk == ids@.len(),
                    nc == chs@.len(),
                    ids == &t.channels,
                    k <= nk,
                    out@.no_duplicates(),
                    forall|x: u32| seen@.contains(x) <==> out@.contains(x),
                    forall|x: u32| #[trigger]
                        out@.contains(x) <==> (x != me && ((t.sessions@.contains(x) && connected@.contains(x))
                            || member_of_any(chs@, ids@.subrange(0, k as int), x))),
                decreases nk - k,
            {
                let id = ids[k];
                let mut i: usize = 0;
                while i < nc
                    invariant
                        nk == ids@.len(),
                        nc == chs@.len(),
                        ids == &t.channels,
                        k < nk,
                        id == ids@[k as int],
                        i <= nc,
                        out@.no_duplicates(),
                        forall|x: u32| seen@.contains(x) <==> out@.contains(x),
                        forall|x: u32| #[trigger]
                            out@.contains(x) <==> (x != me && ((t.sessions@.contains(x)
                                && connected@.contains(x)) || member_of_any(
                                chs@,
                                ids@.subrange(0, k as int),
                                x,
                            ) || exists|c: int|
                                0 <= c < i && chs@[c].id == id && #[trigger] in_channel(chs@[c], x))),
                    decreases nc - i,
                {
                    let ghost before = out@;
                    if chs[i].id == id {
                        add_all_reached(&mut seen, &mut out, &chs[i].listeners, Some(me));
                        add_all_reached(&mut seen, &mut out, &chs[i].clients, Some(me));
                    }
                    proof {
                        assert forall|x: u32| #[trigger]
                            out@.contains(x) <==> (x != me && ((t.sessions@.contains(x)
                                && connected@.contains(x)) || member_of_any(
                                chs@,
                                ids@.subrange(0, k as int),
                                x,
                            ) || exists|c: int|
                                0 <= c < i + 1 && chs@[c].id == id && #[trigger] in_channel(
                                    chs@[c],
                                    x,
                                ))) by {
                            if exists|c: int|
                                0 <= c < i + 1 && chs@[c].id == id && #[trigger] in_channel(
                                    chs@[c],
                                    x,
                                ) {
                                let c = choose|c: int|
                                    0 <= c < i + 1 && chs@[c].id == id && #[trigger] in_channel(
                                        chs@[c],
                                        x,
                                    );
                                if c < i {
                                    assert(exists|c: int|
                                        0 <= c < i && chs@[c].id == id && #[trigger] in_channel(
                                            chs@[c],
                                            x,
                                        ));
                                }
                            }
                            if exists|c: int|
                                0 <= c < i && chs@[c].id == id && #[trigger] in_channel(chs@[c], x) {
                                let c = choose|c: int|
                                    0 <= c < i && chs@[c].id == id && #[trigger] in_channel(chs@[c], x);
                                assert(0 <= c < i + 1 && chs@[c].id == id && in_channel(chs@[c], x));
                            }
                            if out@.contains(x) && !before.contains(x) {
                                assert(0 <= i < i + 1 && chs@[i as int].id == id && in_channel(
                                    chs@[i as int],
                                    x,
                                ));
                            }
                        }
                    }
                    i = i + 1;
                }
                proof {
                    let before_ids = ids@.subrange(0, k as int);
                    let after_ids = ids@.subrange(0, k + 1);
                    assert forall|x: u32|
                        #[trigger] member_of_any(chs@, after_ids, x) <==> (member_of_any(
                            chs@,
                            before_ids,
                            x,
                        ) || exists|c: int|
                            0 <= c < nc && chs@[c].id == id && #[trigger] in_channel(chs@[c], x)) by {
                        if member_of_any(chs@, after_ids, x) {
                            let (kk, c) = choose|kk: int, c: int|
                                #![trigger after_ids[kk], in_channel(chs@[c], x)]
                                0 <= kk < after_ids.len() && 0 <= c < chs@.len() && chs@[c].id
                                    == after_ids[kk] && in_channel(chs@[c], x);
                            if kk < k {
                                assert(before_ids[kk] == after_ids[kk]);
                                assert(0 <= kk < before_ids.len() && 0 <= c < chs@.len() && chs@[c].id
                                    == before_ids[kk] && in_channel(chs@[c], x));
                            } else {
                                assert(0 <= c < nc && chs@[c].id == id && in_channel(chs@[c], x));
                            }
                        }
                        if member_of_any(chs@, before_ids, x) {
                            let (kk, c) = choose|kk: int, c: int|
                                #![trigger before_ids[kk], in_channel(chs@[c], x)]
                                0 <= kk < before_ids.len() && 0 <= c < chs@.len() && chs@[c].id
                                    == before_ids[kk] && in_channel(chs@[c], x);
                            assert(after_ids[kk] == before_ids[kk]);
                            assert(0 <= kk < after_ids.len() && 0 <= c < chs@.len() && chs@[c].id
                                == after_ids[kk] && in_channel(chs@[c], x));
                        }
                        if exists|c: int|
                            0 <= c < nc && chs@[c].id == id && #[trigger] in_channel(chs@[c], x) {
                            let c = choose|c: int|
                                0 <= c < nc && chs@[c].id == id && #[trigger] in_channel(chs@[c], x);
                            assert(after_ids[k as int] == id);
                            assert(0 <= k < after_ids.len() && 0 <= c < chs@.len() && chs@[c].id
                                == after_ids[k as int] && in_channel(chs@[c], x));
                        }
                    }
                }
                k = k + 1;
            }
            assert(ids@.subrange(0, nk as int) =~= ids@);
            return VoiceRoute::Deliver(out);
        },
    }
}

/// The routed recipients that get an audio packet, in order: those still
/// connected and not deaf (`deaf[i]` is `None` for a recipient gone since the
/// routing, and its deafness otherwise).
pub open spec fn hearing(recipients: Seq<u32>, deaf: Seq<Option<bool>>) -> Seq<u32>
    decreases recipients.len(),
{
    if recipients.len() == 0 {
        Seq::empty()
    } else {
        let prev = hearing(recipients.drop_last(), deaf.take(recipients.len() - 1));
        if deaf[recipients.len() - 1] == Some(false) {
            prev.push(recipients.last())
        } else {
            prev
        }
    }
}

/// Who gets an audio packet, and how many they are (the figure fed to the
/// anticheat's peak statistic, at most `u32::MAX`).
pub struct Delivery {
    pub sessions: Vec<u32>,
    pub count: u32,
}

/// Filters the routed recipients of an audio packet down to those that get it:
/// connected and not deaf.
pub fn delivery(recipients: &Vec<u32>, deaf: &Vec<Option<bool>>) -> (d: Delivery)
    requires
        deaf@.len() == recipients@.len(),
    ensures
        d.sessions@ == hearing(recipients@, deaf@),
        d.count as int == if d.sessions@.len() > u32::MAX { u32::MAX as int } else { d.sessions@.len() as int },
{
    let n = recipients.len();
    let mut out: Vec<u32> = Vec::new();
    let mut i: usize = 0;
    while i < n
        invariant
            n == recipients@.len(),
            n == deaf@.len(),
            i <= n,
            out@ == hearing(recipients@.take(i as int), deaf@.take(i as int)),
        decreases n - i,
    {
        let ghost r1 = recipients@.take(i + 1);
        let ghost d1 = deaf@.take(i + 1);
        proof {
            assert(r1.drop_last() =~= recipients@.take(i as int));
            assert(d1.take(i as int) =~= deaf@.take(i as int));
        }
        match deaf[i] {
            Some(false) => out.push(recipients[i]),
            _ => {},
        }
        i = i + 1;
    }
    proof {
        assert(recipients@.take(n as int) =~= recipients@);
        assert(deaf@.take(n as int) =~= deaf@);
    }
    let len = out.len();
    let count: u32 = if len > 0xffff_ffff { 0xffff_ffff } else { len as u32 };
    Delivery { sessions: out, count }
}

} // verus!
