use vstd::prelude::*;
use crate::seqs::lemma_prefix_contains;
use std::collections::HashMap;
use vstd::std_specs::hash::group_hash_axioms;
use vstd::std_specs::iter::IteratorSpec;

verus! {

broadcast use group_hash_axioms;

/// Time elapsed from `t` to `now`, saturating at zero when `t` lies after `now`.
pub open spec fn elapsed(now: u64, t: u64) -> nat {
    if now >= t { (now - t) as nat } else { 0 }
}

/// The entries of `m` last seen at most `span` before `now`.
pub open spec fn fresh_part(m: Map<u64, u64>, now: u64, span: u64) -> Map<u64, u64> {
    Map::new(|k: u64| m.dom().contains(k) && elapsed(now, m[k]) <= span, |k: u64| m[k])
}

/// `m` with every key of `keys` stamped with the time `now`.
pub open spec fn stamped(m: Map<u64, u64>, keys: Seq<u64>, now: u64) -> Map<u64, u64> {
    m.union_prefer_right(Map::new(|k: u64| keys.contains(k), |k: u64| now))
}

/// The distinct targets a client addressed recently, each with the time it was
/// last addressed (nanoseconds on the server clock).
pub struct TargetWindow {
    stamps: HashMap<u64, u64>,
}

impl View for TargetWindow {
    type V = Map<u64, u64>;

    closed spec fn view(&self) -> Map<u64, u64> {
        self.stamps@
    }
}

impl TargetWindow {
    /// An empty window.
    pub fn new() -> (w: TargetWindow)
        ensures
            w@ == Map::<u64, u64>::empty(),
    {
        TargetWindow { stamps: HashMap::new() }
    }

    /// The number of distinct targets in the window.
    pub fn len(&self) -> (n: usize)
        ensures
            self@.dom().finite(),
            n == self@.dom().len(),
    {
        self.stamps.len()
    }

    /// Empties the window.
    pub fn clear(&mut self)
        ensures
            final(self)@ == Map::<u64, u64>::empty(),
    {
        self.stamps.clear();
    }

    /// Records that target `key` was addressed at time `now`.
    pub fn insert(&mut self, key: u64, now: u64)
        ensures
            final(self)@ == old(self)@.insert(key, now),
    {
        self.stamps.insert(key, now);
    }

    /// Drops the targets last addressed more than `span` before `now`.
    pub fn retain_fresh(&mut self, now: u64, span: u64)
        ensures
            final(self)@ == fresh_part(old(self)@, now, span),
    {
        let ghost m0 = self.stamps@;
        let mut stale: Vec<u64> = Vec::new();
        for (k, t) in it: self.stamps.iter()
            invariant
                self.stamps@ == m0,
                it.seq() == vstd::std_specs::hash::spec_hash_map_iter(&self.stamps).remaining(),
                forall|x: u64|
                    #[trigger] stale@.contains(x) ==> m0.contains_key(x) && elapsed(now, m0[x]) > span,
                forall|j: int|
                    0 <= j < it.index() ==> (elapsed(now, *it.seq()[j].1) > span ==> stale@.contains(
                        *(#[trigger] it.seq()[j]).0,
                    )),
        {
            proof {
                let v = it.seq();
                assert(m0.contains_key(*v[it.index() as int].0));
                assert(m0[*k] == *t);
            }
            let ghost before = stale@;
            let gap = if now >= *t { now - *t } else { 0 };
            if gap > span {
                stale.push(*k);
                proof {
                    assert(stale@[stale@.len() - 1] == *k);
                }
            }
            proof {
                assert forall|x: u64| #[trigger] before.contains(x) implies stale@.contains(x) by {
                    let j = choose|j: int| 0 <= j < before.len() && before[j] == x;
                    assert(stale@[j] == x);
                }
                assert forall|x: u64| #[trigger] stale@.contains(x) implies before.contains(x) || x == *k by {
                    let j = choose|j: int| 0 <= j < stale@.len() && stale@[j] == x;
                    if j < before.len() {
                        assert(before[j] == x);
                    }
                }
            }
        }
        proof {
            assert forall|x: u64| m0.contains_key(x) && elapsed(now, m0[x]) > span implies #[trigger] stale@.contains(x) by {
                let v = vstd::std_specs::hash::spec_hash_map_iter(&self.stamps).remaining();
                assert(v.contains((&x, &m0[x])));
            }
        }
        let n = stale.len();
        let mut i: usize = 0;
        while i < n
            invariant
                n == stale@.len(),
                i <= n,
                forall|x: u64|
                    #[trigger] self.stamps@.contains_key(x) <==> (m0.contains_key(x) && !stale@.take(i as int).contains(x)),
                forall|x: u64| #[trigger] self.stamps@.contains_key(x) ==> self.stamps@[x] == m0[x],
            decreases n - i,
        {
            self.stamps.remove(&stale[i]);
            proof {
                lemma_prefix_contains(stale@, i as int);
            }
            i = i + 1;
        }
        proof {
            assert(stale@.take(n as int) =~= stale@);
            assert(self.stamps@ =~= fresh_part(m0, now, span));
        }
    }
}

} // verus!
