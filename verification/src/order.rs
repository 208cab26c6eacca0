use vstd::prelude::*;

verus! {

/// Whether key `x` may come before key `y`.
pub open spec fn in_order(x: u128, y: u128, descending: bool) -> bool {
    if descending { x >= y } else { x <= y }
}

/// Whether `order` is a permutation of `0..n`.
pub open spec fn is_permutation(order: Seq<usize>, n: nat) -> bool {
    &&& order.len() == n
    &&& order.no_duplicates()
    &&& forall|x: usize| #[trigger] order.contains(x) <==> x < n
}

/// Whether the keys taken in `order` are sorted.
pub open spec fn sorted_by(order: Seq<usize>, keys: Seq<u128>, descending: bool) -> bool {
    forall|a: int, b: int|
        0 <= a < b < order.len() ==> in_order(
            #[trigger] keys[order[a] as int],
            #[trigger] keys[order[b] as int],
            descending,
        )
}

/// Whether indices with equal keys keep their relative order in `order`.
pub open spec fn stable_by(order: Seq<usize>, keys: Seq<u128>) -> bool {
    forall|a: int, b: int|
        0 <= a < b < order.len() && #[trigger] keys[order[a] as int] == #[trigger] keys[order[b] as int]
            ==> order[a] < order[b]
}

fn comes_before(x: u128, y: u128, descending: bool) -> (b: bool)
    ensures
        b == in_order(x, y, descending),
{
    if descending { x >= y } else { x <= y }
}

/// The indices of `keys`, ordered by key (largest first when `descending`);
/// equal keys keep their relative order.
pub fn sort_indices(keys: &Vec<u128>, descending: bool) -> (order: Vec<usize>)
    ensures
        is_permutation(order@, keys@.len()),
        sorted_by(order@, keys@, descending),
        stable_by(order@, keys@),
{
    let n = keys.len();
    let mut out: Vec<usize> = Vec::new();
    let mut i: usize = 0;
    while i < n
        invariant
            n == keys@.len(),
            i <= n,
            is_permutation(out@, i as nat),
            forall|q: int| 0 <= q < out@.len() ==> (out@[q] as int) < i,
            sorted_by(out@, keys@, descending),
            stable_by(out@, keys@),
        decreases n - i,
    {
        let k = keys[i];
        let m = out.len();
        let mut p: usize = 0;
        while p < m && comes_before(keys[out[p]], k, descending)
            invariant
                m == out@.len(),
                p <= m,
                is_permutation(out@, i as nat),
                forall|q: int| 0 <= q < out@.len() ==> (out@[q] as int) < i,
                i < n,
                n == keys@.len(),
                k == keys@[i as int],
                forall|q: int| 0 <= q < p ==> in_order(#[trigger] keys@[out@[q] as int], k, descending),
            decreases m - p,
        {
            p = p + 1;
        }
        let ghost before = out@;
        out.insert(p, i);
        proof {
            let s = out@;
            assert forall|q: int| 0 <= q < s.len() implies (s[q] as int) < i + 1 by {
                if q < p {
                    assert(s[q] == before[q]);
                    assert(before.contains(before[q]));
                } else if q > p {
                    assert(s[q] == before[q - 1]);
                    assert(before.contains(before[q - 1]));
                }
            }
            assert forall|x: usize| #[trigger] s.contains(x) <==> x < i + 1 by {
                if s.contains(x) {
                    let q = choose|q: int| 0 <= q < s.len() && s[q] == x;
                    if q < p {
                        assert(s[q] == before[q]);
                    } else if q > p {
                        assert(s[q] == before[q - 1]);
                    }
                }
                if x < i {
                    assert(before.contains(x));
                    let q = choose|q: int| 0 <= q < before.len() && before[q] == x;
                    if q < p {
                        assert(s[q] == x);
                    } else {
                        assert(s[q + 1] == x);
                    }
                }
                if x == i {
                    assert(s[p as int] == x);
                }
            }
            assert(s.no_duplicates()) by {
                assert forall|a: int, b: int| 0 <= a < s.len() && 0 <= b < s.len() && a != b implies s[a]
                    != s[b] by {
                    if a == p {
                        if b < p {
                            assert(before.contains(s[b]));
                        } else {
                            assert(s[b] == before[b - 1]);
                            assert(before.contains(s[b]));
                        }
                    } else if b == p {
                        if a < p {
                            assert(before.contains(s[a]));
                        } else {
                            assert(s[a] == before[a - 1]);
                            assert(before.contains(s[a]));
                        }
                    } else {
                        let a0 = if a < p { a } else { a - 1 };
                        let b0 = if b < p { b } else { b - 1 };
                        assert(s[a] == before[a0]);
                        assert(s[b] == before[b0]);
                    }
                }
            }
            assert forall|a: int, b: int| 0 <= a < b < s.len() implies in_order(
                #[trigger] keys@[s[a] as int],
                #[trigger] keys@[s[b] as int],
                descending,
            ) by {
                if a < p && b < p {
                    assert(s[a] == before[a] && s[b] == before[b]);
                } else if a < p && b == p {
                    assert(s[a] == before[a]);
                } else if a < p {
                    assert(s[a] == before[a] && s[b] == before[b - 1]);
                    if p < m {
                        assert(in_order(keys@[before[p as int] as int], keys@[before[b - 1] as int], descending));
                    }
                } else if a == p {
                    assert(s[b] == before[b - 1]);
                    assert(!in_order(keys@[before[p as int] as int], k, descending));
                    if b - 1 > p {
                        assert(in_order(keys@[before[p as int] as int], keys@[before[b - 1] as int], descending));
                    }
                } else {
                    assert(s[a] == before[a - 1] && s[b] == before[b - 1]);
                }
            }
            assert forall|a: int, b: int|
                0 <= a < b < s.len() && #[trigger] keys@[s[a] as int] == #[trigger] keys@[s[b] as int]
                    implies s[a] < s[b] by {
                if a < p && b < p {
                    assert(s[a] == before[a] && s[b] == before[b]);
                } else if a < p && b == p {
                    assert(s[a] == before[a]);
                } else if a < p {
                    assert(s[a] == before[a] && s[b] == before[b - 1]);
                } else if a == p {
                    assert(s[b] == before[b - 1]);
                    assert(!in_order(keys@[before[p as int] as int], k, descending));
                    if b - 1 > p {
                        assert(in_order(keys@[before[p as int] as int], keys@[before[b - 1] as int], descending));
                    }
                } else {
                    assert(s[a] == before[a - 1] && s[b] == before[b - 1]);
                }
            }
        }
        i = i + 1;
    }
    out
}

} // verus!
