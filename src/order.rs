//! Facts about sequences sorted by a strict order.
use vstd::prelude::*;

verus! {

/// Each entry of `s` comes strictly before every later one under `lt`.
pub open spec fn sorted_by<T>(s: Seq<T>, lt: spec_fn(T, T) -> bool) -> bool {
    forall|i: int, j: int| 0 <= i < j < s.len() ==> lt(#[trigger] s[i], #[trigger] s[j])
}

/// `lt` never holds both ways.
pub open spec fn asymmetric<T>(lt: spec_fn(T, T) -> bool) -> bool {
    forall|x: T, y: T| #[trigger] lt(x, y) ==> !lt(y, x)
}

/// Two sequences sorted by the same strict order and holding the same
/// entries are equal: the order alone decides the sequence.
pub proof fn lemma_sorted_determined<T>(s1: Seq<T>, s2: Seq<T>, lt: spec_fn(T, T) -> bool)
    requires
        asymmetric(lt),
        sorted_by(s1, lt),
        sorted_by(s2, lt),
        forall|x: T| s1.contains(x) <==> s2.contains(x),
    ensures
        s1 == s2,
    decreases s1.len(),
{
    if s1.len() == 0 {
        if s2.len() > 0 {
            assert(s2.contains(s2[0]));
        }
        assert(s1 =~= s2);
    } else {
        assert(s1.contains(s1[0]));
        let m = choose|m: int| 0 <= m < s2.len() && s2[m] == s1[0];
        assert(s2.contains(s2[0]));
        let k = choose|k: int| 0 <= k < s1.len() && s1[k] == s2[0];
        if k > 0 {
            assert(lt(s1[0], s1[k]));
            if m > 0 {
                assert(lt(s2[0], s2[m]));
            }
        }
        assert(s1[0] == s2[0]);
        let t1 = s1.drop_first();
        let t2 = s2.drop_first();
        assert forall|x: T| t1.contains(x) <==> t2.contains(x) by {
            if t1.contains(x) {
                let j = choose|j: int| 0 <= j < t1.len() && t1[j] == x;
                assert(s1[j + 1] == x);
                assert(lt(s1[0], s1[j + 1]));
                assert(s2.contains(x));
                let j2 = choose|j2: int| 0 <= j2 < s2.len() && s2[j2] == x;
                assert(j2 != 0);
                assert(t2[j2 - 1] == x);
            }
            if t2.contains(x) {
                let j = choose|j: int| 0 <= j < t2.len() && t2[j] == x;
                assert(s2[j + 1] == x);
                assert(lt(s2[0], s2[j + 1]));
                assert(s1.contains(x));
                let j1 = choose|j1: int| 0 <= j1 < s1.len() && s1[j1] == x;
                assert(j1 != 0);
                assert(t1[j1 - 1] == x);
            }
        }
        assert(sorted_by(t1, lt)) by {
            assert forall|i: int, j: int| 0 <= i < j < t1.len() implies lt(#[trigger] t1[i], #[trigger] t1[j]) by {
                assert(t1[i] == s1[i + 1] && t1[j] == s1[j + 1]);
            }
        }
        assert(sorted_by(t2, lt)) by {
            assert forall|i: int, j: int| 0 <= i < j < t2.len() implies lt(#[trigger] t2[i], #[trigger] t2[j]) by {
                assert(t2[i] == s2[i + 1] && t2[j] == s2[j + 1]);
            }
        }
        lemma_sorted_determined(t1, t2, lt);
        assert(s1 =~= s2) by {
            assert(s1 == seq![s1[0]] + t1);
            assert(s2 == seq![s2[0]] + t2);
        }
    }
}

} // verus!
