use vstd::prelude::*;

verus! {

/// The first `i + 1` elements of `s` hold `x` exactly when the first `i` do,
/// or `x` is element `i`.
pub proof fn lemma_prefix_contains<T>(s: Seq<T>, i: int)
    requires
        0 <= i < s.len(),
    ensures
        forall|x: T| #[trigger]
            s.subrange(0, i + 1).contains(x) <==> (s.subrange(0, i).contains(x) || x == s[i]),
{
    let a = s.subrange(0, i + 1);
    let b = s.subrange(0, i);
    assert forall|x: T| #[trigger] a.contains(x) <==> (b.contains(x) || x == s[i]) by {
        if a.contains(x) {
            let j = choose|j: int| 0 <= j < a.len() && a[j] == x;
            if j < i {
                assert(b[j] == x);
            }
        }
        if b.contains(x) {
            let j = choose|j: int| 0 <= j < b.len() && b[j] == x;
            assert(a[j] == x);
        }
        if x == s[i] {
            assert(a[i] == x);
        }
    }
}

} // verus!
