//! Text helpers over the character view of strings.
use vstd::prelude::*;

verus! {

/// The pieces of `s` between commas, in order: `"a,,b"` has three pieces,
/// the middle one empty, and the empty text has one empty piece.
pub open spec fn split_commas(s: Seq<char>) -> Seq<Seq<char>>
    decreases s.len(),
{
    if s.len() == 0 {
        seq![Seq::empty()]
    } else {
        let init = split_commas(s.drop_last());
        if s.last() == ',' {
            init.push(Seq::empty())
        } else {
            init.update(init.len() - 1, init.last().push(s.last()))
        }
    }
}

pub proof fn lemma_split_commas_nonempty(s: Seq<char>)
    ensures
        split_commas(s).len() >= 1,
    decreases s.len(),
{
    if s.len() > 0 {
        lemma_split_commas_nonempty(s.drop_last());
    }
}

/// Splits `s` at each comma.
pub fn split_list(s: &str) -> (r: Vec<String>)
    ensures
        r@.map_values(|p: String| p@) == split_commas(s@),
{
    let n = s.unicode_len();
    let mut pieces: Vec<String> = Vec::new();
    let mut cur = String::new();
    let mut i: usize = 0;
    while i < n
        invariant
            n == s@.len(),
            i <= n,
            pieces@.map_values(|p: String| p@).push(cur@) == split_commas(s@.take(i as int)),
        decreases n - i,
    {
        let c = s.get_char(i);
        proof {
            assert(s@.take(i + 1).drop_last() == s@.take(i as int));
            lemma_split_commas_nonempty(s@.take(i as int));
        }
        let ghost pv = pieces@.map_values(|p: String| p@);
        let ghost before = cur@;
        if c == ',' {
            pieces.push(cur);
            cur = String::new();
            assert(pieces@.map_values(|p: String| p@) =~= pv.push(before));
        } else {
            let piece = s.substring_char(i, i + 1);
            cur.append(piece);
            assert(cur@ =~= before.push(c));
            assert(pv.push(cur@) =~= pv.push(before).update(pv.len() as int, before.push(c)));
        }
        i = i + 1;
    }
    let ghost pv = pieces@.map_values(|p: String| p@);
    let ghost last = cur@;
    pieces.push(cur);
    assert(pieces@.map_values(|p: String| p@) =~= pv.push(last));
    assert(s@.take(n as int) == s@);
    pieces
}

/// `a` comes strictly before `b` in lexicographic order of code points,
/// a proper prefix first.
pub open spec fn lex_lt(a: Seq<char>, b: Seq<char>) -> bool
    decreases a.len(),
{
    if a.len() == 0 {
        b.len() > 0
    } else if b.len() == 0 {
        false
    } else if a[0] != b[0] {
        a[0] < b[0]
    } else {
        lex_lt(a.drop_first(), b.drop_first())
    }
}

pub proof fn lemma_lex_total(a: Seq<char>, b: Seq<char>)
    ensures
        a != b ==> lex_lt(a, b) || lex_lt(b, a),
        !(lex_lt(a, b) && lex_lt(b, a)),
    decreases a.len(),
{
    if a.len() > 0 && b.len() > 0 {
        if a[0] == b[0] {
            lemma_lex_total(a.drop_first(), b.drop_first());
            if a != b {
                assert(a == seq![a[0]] + a.drop_first());
                assert(b == seq![b[0]] + b.drop_first());
            }
        } else {
            let x = a[0];
            let y = b[0];
        }
    } else if a.len() == 0 && b.len() == 0 {
        assert(a == b);
    }
}

pub proof fn lemma_lex_transitive(a: Seq<char>, b: Seq<char>, c: Seq<char>)
    requires
        lex_lt(a, b),
        lex_lt(b, c),
    ensures
        lex_lt(a, c),
    decreases a.len(),
{
    if a.len() > 0 && b.len() > 0 && c.len() > 0 && a[0] == b[0] && b[0] == c[0] {
        lemma_lex_transitive(a.drop_first(), b.drop_first(), c.drop_first());
    }
}

/// Whether `a` comes strictly before `b` in lexicographic order.
pub fn str_less(a: &str, b: &str) -> (r: bool)
    ensures
        r == lex_lt(a@, b@),
{
    let n = a.unicode_len();
    let m = b.unicode_len();
    let mut i: usize = 0;
    assert(a@.skip(0) == a@);
    assert(b@.skip(0) == b@);
    while i < n && i < m
        invariant
            n == a@.len(),
            m == b@.len(),
            i <= n,
            i <= m,
            lex_lt(a@, b@) == lex_lt(a@.skip(i as int), b@.skip(i as int)),
        decreases n - i,
    {
        let x = a.get_char(i);
        let y = b.get_char(i);
        assert(a@.skip(i as int)[0] == x);
        assert(b@.skip(i as int)[0] == y);
        if x != y {
            return x < y;
        }
        assert(a@.skip(i as int).drop_first() == a@.skip(i + 1));
        assert(b@.skip(i as int).drop_first() == b@.skip(i + 1));
        i = i + 1;
    }
    i < m
}

} // verus!
