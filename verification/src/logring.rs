use vstd::prelude::*;
use std::collections::VecDeque;

verus! {

/// Number of anticheat events kept for the panel.
pub const LOG_CAPACITY: usize = 100;

/// The text of each line of a sequence of strings.
pub open spec fn texts(lines: Seq<String>) -> Seq<Seq<char>> {
    lines.map_values(|l: String| l@)
}

/// `log` after appending `line`, dropping the oldest line when the log is full.
pub open spec fn ring_push(log: Seq<Seq<char>>, line: Seq<char>) -> Seq<Seq<char>> {
    if log.len() >= LOG_CAPACITY {
        log.drop_first().push(line)
    } else {
        log.push(line)
    }
}

/// `log` after appending each of `lines` in turn.
pub open spec fn ring_push_all(log: Seq<Seq<char>>, lines: Seq<Seq<char>>) -> Seq<Seq<char>>
    decreases lines.len(),
{
    if lines.len() == 0 {
        log
    } else {
        ring_push(ring_push_all(log, lines.drop_last()), lines.last())
    }
}

/// Appending keeps a log of at most `LOG_CAPACITY` lines within that bound.
pub proof fn lemma_ring_push_bounded(log: Seq<Seq<char>>, line: Seq<char>)
    requires
        log.len() <= LOG_CAPACITY,
    ensures
        ring_push(log, line).len() <= LOG_CAPACITY,
        ring_push(log, line).last() == line,
{
}

/// The most recent anticheat events, oldest first, at most `LOG_CAPACITY` of them.
pub struct LogRing {
    lines: VecDeque<String>,
}

impl View for LogRing {
    type V = Seq<Seq<char>>;

    closed spec fn view(&self) -> Seq<Seq<char>> {
        texts(self.lines@)
    }
}

impl LogRing {
    #[verifier::type_invariant]
    spec fn bounded(self) -> bool {
        self.lines@.len() <= LOG_CAPACITY
    }

    /// An empty log.
    pub fn new() -> (r: LogRing)
        ensures
            r@ == Seq::<Seq<char>>::empty(),
    {
        let r = LogRing { lines: VecDeque::new() };
        assert(r@ =~= Seq::<Seq<char>>::empty());
        r
    }

    /// Appends `line`, dropping the oldest line when the log is full.
    pub fn push(&mut self, line: String)
        ensures
            final(self)@ == ring_push(old(self)@, line@),
            final(self)@.len() <= LOG_CAPACITY,
    {
        proof {
            use_type_invariant(&*self);
        }
        let mut lines: VecDeque<String> = VecDeque::new();
        std::mem::swap(&mut lines, &mut self.lines);
        let ghost before = lines@;
        if lines.len() >= LOG_CAPACITY {
            lines.pop_front();
        }
        let ghost kept = lines@;
        lines.push_back(line);
        proof {
            let old_v = texts(before);
            assert(texts(lines@) =~= ring_push(old_v, line@)) by {
                if before.len() >= LOG_CAPACITY {
                    assert forall|k: int| 0 <= k < kept.len() implies texts(lines@)[k]
                        == old_v.drop_first()[k] by {}
                } else {
                    assert forall|k: int| 0 <= k < kept.len() implies texts(lines@)[k]
                        == old_v[k] by {}
                }
            }
        }
        self.lines = lines;
    }

    /// The lines, most recent first.
    pub fn recent(&self) -> (r: Vec<String>)
        ensures
            texts(r@) == self@.reverse(),
            r@.len() <= LOG_CAPACITY,
    {
        proof {
            use_type_invariant(self);
        }
        let n = self.lines.len();
        let mut out: Vec<String> = Vec::new();
        let mut i: usize = n;
        while i > 0
            invariant
                n == self.lines@.len(),
                i <= n,
                out@.len() == n - i,
                forall|k: int| 0 <= k < out@.len() ==> out@[k]@ == self.lines@[n - 1 - k]@,
            decreases i,
        {
            i = i - 1;
            let line_i = self.lines[i].clone();
            out.push(line_i);
        }
        assert(texts(out@) =~= texts(self.lines@).reverse());
        out
    }

    /// Removes every line.
    pub fn clear(&mut self)
        ensures
            final(self)@ == Seq::<Seq<char>>::empty(),
    {
        self.lines = VecDeque::new();
        assert(self@ =~= Seq::<Seq<char>>::empty());
    }
}

} // verus!
