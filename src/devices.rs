//! The log of device files left out of the archives.
use vstd::prelude::*;
use crate::order::{asymmetric, lemma_sorted_determined, sorted_by};
use crate::text::{lemma_lex_total, lemma_lex_transitive, lex_lt, str_less};

verus! {

/// The character views of `v`.
pub open spec fn views(v: Seq<String>) -> Seq<Seq<char>> {
    v.map_values(|p: String| p@)
}

/// Each entry comes strictly before every later one, so no entry repeats.
pub open spec fn strictly_sorted(s: Seq<Seq<char>>) -> bool {
    forall|i: int, j: int| 0 <= i < j < s.len() ==> lex_lt(#[trigger] s[i], #[trigger] s[j])
}

/// The entries of `s`, one per line, without a newline after the last.
pub open spec fn join_lines(s: Seq<Seq<char>>) -> Seq<char>
    decreases s.len(),
{
    if s.len() == 0 {
        Seq::empty()
    } else if s.len() == 1 {
        s[0]
    } else {
        join_lines(s.drop_last()) + seq!['\n'] + s.last()
    }
}

/// The distinct entries of `paths`, sorted.
pub fn sorted_unique(paths: &Vec<String>) -> (r: Vec<String>)
    ensures
        strictly_sorted(views(r@)),
        forall|x: Seq<char>| views(r@).contains(x) <==> views(paths@).contains(x),
{
    let mut out: Vec<String> = Vec::new();
    let mut i: usize = 0;
    while i < paths.len()
        invariant
            i <= paths@.len(),
            strictly_sorted(views(out@)),
            forall|x: Seq<char>| views(out@).contains(x) <==> views(paths@.take(i as int)).contains(x),
        decreases paths@.len() - i,
    {
        let x = &paths[i];
        let ghost ov = views(out@);
        let ghost xv = x@;
        let ghost pre = views(paths@.take(i as int));
        assert(views(paths@.take(i + 1)) =~= pre.push(xv));
        assert forall|y: Seq<char>| pre.push(xv).contains(y) <==> pre.contains(y) || y == xv by {
            if pre.push(xv).contains(y) {
                let k = choose|k: int| 0 <= k < pre.push(xv).len() && pre.push(xv)[k] == y;
                if k < pre.len() {
                    assert(pre[k] == y);
                }
            }
            if pre.contains(y) {
                let k = choose|k: int| 0 <= k < pre.len() && pre[k] == y;
                assert(pre.push(xv)[k] == y);
            }
            if y == xv {
                assert(pre.push(xv)[pre.len() as int] == y);
            }
        }
        let mut p: usize = 0;
        while p < out.len() && str_less(out[p].as_str(), x.as_str())
            invariant
                p <= out@.len(),
                ov == views(out@),
                xv == x@,
                forall|j: int| 0 <= j < p ==> lex_lt(#[trigger] ov[j], xv),
            decreases out@.len() - p,
        {
            p = p + 1;
        }
        if p < out.len() && out[p] == *x {
            assert(ov[p as int] == xv);
        } else {
            if p < out.len() {
                assert(!lex_lt(ov[p as int], xv));
                proof {
                    lemma_lex_total(ov[p as int], xv);
                }
            }
            out.insert(p, x.clone());
            let ghost nv = views(out@);
            assert(nv =~= ov.insert(p as int, xv));
            assert forall|a: int, b: int| 0 <= a < b < nv.len() implies lex_lt(#[trigger] nv[a], #[trigger] nv[b]) by {
                if b < p {
                } else if b == p {
                } else if a < p {
                    if b - 1 > p {
                        assert(lex_lt(ov[p as int], ov[b - 1]));
                    }
                    lemma_lex_transitive(ov[a], xv, ov[p as int]);
                    if b - 1 > p {
                        lemma_lex_transitive(ov[a], ov[p as int], ov[b - 1]);
                    }
                } else if a == p {
                    if b - 1 > p {
                        lemma_lex_transitive(xv, ov[p as int], ov[b - 1]);
                    }
                } else {
                }
            }
            assert forall|y: Seq<char>| nv.contains(y) <==> ov.contains(y) || y == xv by {
                if nv.contains(y) {
                    let k = choose|k: int| 0 <= k < nv.len() && nv[k] == y;
                    if k < p {
                        assert(ov[k] == y);
                    } else if k > p {
                        assert(ov[k - 1] == y);
                    }
                }
                if ov.contains(y) {
                    let k = choose|k: int| 0 <= k < ov.len() && ov[k] == y;
                    if k < p {
                        assert(nv[k] == y);
                    } else {
                        assert(nv[k + 1] == y);
                    }
                }
                if y == xv {
                    assert(nv[p as int] == y);
                }
            }
        }
        i = i + 1;
    }
    assert(paths@.take(paths@.len() as int) == paths@);
    out
}

/// The text of the device removal log: the distinct paths, sorted, one per
/// line; nothing when no device file was left out.
pub fn device_log_text(paths: &Vec<String>) -> (r: Option<String>)
    ensures
        r is None <==> paths@.len() == 0,
        forall|t: String|
            r == Some(t) ==> exists|s: Seq<Seq<char>>|
                strictly_sorted(s) && (forall|x: Seq<char>| s.contains(x) <==> views(paths@).contains(x))
                    && t@ == join_lines(s),
{
    let v = sorted_unique(paths);
    let ghost vv = views(v@);
    if v.len() == 0 {
        proof {
            if paths@.len() > 0 {
                assert(views(paths@)[0] == paths@[0]@);
                assert(views(paths@).contains(views(paths@)[0]));
            }
        }
        return None;
    }
    let mut out = String::new();
    let mut i: usize = 0;
    while i < v.len()
        invariant
            i <= v@.len(),
            vv == views(v@),
            out@ == join_lines(vv.take(i as int)),
        decreases v@.len() - i,
    {
        assert(vv.take(i + 1).drop_last() == vv.take(i as int));
        assert(vv[i as int] == v@[i as int]@);
        if i > 0 {
            out.append("\n");
            proof {
                reveal_strlit("\n");
            }
        } else {
            assert(join_lines(vv.take(0)) == Seq::<char>::empty());
            assert(vv.take(1)[0] == vv[0]);
        }
        out.append(v[i].as_str());
        i = i + 1;
    }
    assert(vv.take(v@.len() as int) == vv);
    assert(vv.contains(vv[0]));
    assert(views(paths@).len() > 0);
    Some(out)
}

/// The spec-level order of paths in the log.
pub open spec fn path_order() -> spec_fn(Seq<char>, Seq<char>) -> bool {
    |a: Seq<char>, b: Seq<char>| lex_lt(a, b)
}

/// The log is determined by the set of device paths: collecting the same
/// paths in another order, or more than once, gives the same log.
pub proof fn lemma_device_log_determined(
    s1: Seq<Seq<char>>,
    s2: Seq<Seq<char>>,
    paths1: Seq<Seq<char>>,
    paths2: Seq<Seq<char>>,
)
    requires
        forall|x: Seq<char>| paths1.contains(x) <==> paths2.contains(x),
        strictly_sorted(s1),
        strictly_sorted(s2),
        forall|x: Seq<char>| s1.contains(x) <==> paths1.contains(x),
        forall|x: Seq<char>| s2.contains(x) <==> paths2.contains(x),
    ensures
        s1 == s2,
        join_lines(s1) == join_lines(s2),
{
    let lt = path_order();
    assert(asymmetric(lt)) by {
        assert forall|x: Seq<char>, y: Seq<char>| #[trigger] lt(x, y) implies !lt(y, x) by {
            lemma_lex_total(x, y);
        }
    }
    assert(sorted_by(s1, lt));
    assert(sorted_by(s2, lt));
    lemma_sorted_determined(s1, s2, lt);
}

} // verus!
