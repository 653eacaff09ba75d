//! Cross-engine selection of the canonical extraction result.
use vstd::prelude::*;

verus! {

/// One root filesystem candidate of one engine, turned into an archive.
#[derive(Clone, Debug)]
pub struct ExtractionResult {
    /// Name of the engine that produced it.
    pub extractor: String,
    /// Rank of the candidate within that engine's output; 0 is the primary one.
    pub index: usize,
    /// Cumulative byte size of the candidate tree.
    pub size: u64,
    /// Number of files in the candidate tree.
    pub num_files: usize,
    /// Whether this is the engine's rank-0 candidate, the only kind that can
    /// become canonical.
    pub primary: bool,
    /// Lower-case hex digest of the archive bytes.
    pub archive_hash: String,
    /// Number of filesystem entries written into the archive.
    pub file_node_count: usize,
    /// Where the archive was written.
    pub path: String,
    /// The candidate's root directory.
    pub rootfs_path: String,
}

/// Outcome of the selection over all engines.
#[derive(Clone, Debug)]
pub enum BestExtractor {
    /// Several engines produced a primary result; this one ranked first.
    Best(String),
    /// Exactly one engine produced a primary result.
    Only(String),
    /// Several engines produced a primary result, all with the same archive hash.
    Identical(String),
    /// No engine produced a primary result.
    NoneSucceeded,
}

/// The engine whose results win exact node-count ties.
pub const PREFERRED_ENGINE: &'static str = "unblob";

pub open spec fn is_primary(r: ExtractionResult) -> bool {
    r.index == 0
}

/// Number of primary results in `rs`.
pub open spec fn count_primary(rs: Seq<ExtractionResult>) -> nat
    decreases rs.len(),
{
    if rs.len() == 0 {
        0
    } else {
        count_primary(rs.drop_last()) + if is_primary(rs.last()) { 1nat } else { 0nat }
    }
}

/// `a` ranks at least as high as `b`: more archive nodes, or as many and
/// `b` is not ahead by being the preferred engine.
pub open spec fn ranks_at_least(a: ExtractionResult, b: ExtractionResult, preferred: Seq<char>) -> bool {
    a.file_node_count > b.file_node_count || (a.file_node_count == b.file_node_count && (
    a.extractor@ == preferred || b.extractor@ != preferred))
}

/// Entry `w` is the canonical result: a primary result that ranks at least as
/// high as every primary result, and strictly higher than every primary result
/// before it (the first of equally ranked ones wins).
pub open spec fn is_winner(rs: Seq<ExtractionResult>, w: int, preferred: Seq<char>) -> bool {
    &&& 0 <= w < rs.len()
    &&& is_primary(rs[w])
    &&& forall|j: int|
        0 <= j < rs.len() && is_primary(#[trigger] rs[j]) ==> ranks_at_least(rs[w], rs[j], preferred)
    &&& forall|j: int|
        0 <= j < w && is_primary(#[trigger] rs[j]) ==> !ranks_at_least(rs[j], rs[w], preferred)
}

/// All primary results carry the same archive hash.
pub open spec fn primaries_agree(rs: Seq<ExtractionResult>) -> bool {
    forall|i: int, j: int|
        0 <= i < rs.len() && 0 <= j < rs.len() && is_primary(#[trigger] rs[i]) && is_primary(
            #[trigger] rs[j],
        ) ==> rs[i].archive_hash@ == rs[j].archive_hash@
}

/// What is reported when entry `w` is the canonical result.
pub open spec fn outcome_for(rs: Seq<ExtractionResult>, w: int) -> BestExtractor {
    if count_primary(rs) == 1 {
        BestExtractor::Only(rs[w].extractor)
    } else if primaries_agree(rs) {
        BestExtractor::Identical(rs[w].extractor)
    } else {
        BestExtractor::Best(rs[w].extractor)
    }
}

/// A sequence has no primary result exactly when its count of them is zero.
pub proof fn lemma_count_primary_zero(rs: Seq<ExtractionResult>)
    ensures
        count_primary(rs) == 0 <==> forall|j: int| 0 <= j < rs.len() ==> !is_primary(#[trigger] rs[j]),
    decreases rs.len(),
{
    if rs.len() > 0 {
        let init = rs.drop_last();
        lemma_count_primary_zero(init);
        assert forall|j: int| 0 <= j < init.len() implies init[j] == rs[j] by {}
        if count_primary(rs) == 0 {
            assert forall|j: int| 0 <= j < rs.len() implies !is_primary(#[trigger] rs[j]) by {
                if j < init.len() {
                    assert(init[j] == rs[j]);
                }
            }
        }
        if forall|j: int| 0 <= j < rs.len() ==> !is_primary(#[trigger] rs[j]) {
            assert(!is_primary(rs[rs.len() - 1]));
            assert forall|j: int| 0 <= j < init.len() implies !is_primary(#[trigger] init[j]) by {
                assert(init[j] == rs[j]);
            }
        }
    }
}

/// A sequence whose only primary result stands at `i` counts one primary result.
pub proof fn lemma_count_primary_one(rs: Seq<ExtractionResult>, i: int)
    requires
        0 <= i < rs.len(),
        is_primary(rs[i]),
        forall|j: int| 0 <= j < rs.len() && j != i ==> !is_primary(#[trigger] rs[j]),
    ensures
        count_primary(rs) == 1,
    decreases rs.len(),
{
    let init = rs.drop_last();
    if i == rs.len() - 1 {
        assert forall|j: int| 0 <= j < init.len() implies !is_primary(#[trigger] init[j]) by {
            assert(init[j] == rs[j]);
        }
        lemma_count_primary_zero(init);
    } else {
        assert(init[i] == rs[i]);
        assert forall|j: int| 0 <= j < init.len() && j != i implies !is_primary(#[trigger] init[j]) by {
            assert(init[j] == rs[j]);
        }
        lemma_count_primary_one(init, i);
    }
}

/// With no primary result among the results, there is no canonical result,
/// so no archive is promoted and the outcome is `NoneSucceeded`.
pub proof fn lemma_no_primary_no_canonical(rs: Seq<ExtractionResult>, preferred: Seq<char>)
    requires
        forall|j: int| 0 <= j < rs.len() ==> !is_primary(#[trigger] rs[j]),
    ensures
        count_primary(rs) == 0,
        forall|w: int| !is_winner(rs, w, preferred),
{
    lemma_count_primary_zero(rs);
}

/// When a single engine produced the only primary result, that result is the
/// one canonical result and the outcome names that engine as the only one.
pub proof fn lemma_single_primary_is_only(rs: Seq<ExtractionResult>, preferred: Seq<char>, i: int)
    requires
        0 <= i < rs.len(),
        is_primary(rs[i]),
        forall|j: int| 0 <= j < rs.len() && j != i ==> !is_primary(#[trigger] rs[j]),
    ensures
        is_winner(rs, i, preferred),
        forall|w: int| is_winner(rs, w, preferred) ==> w == i,
        outcome_for(rs, i) == BestExtractor::Only(rs[i].extractor),
{
    lemma_count_primary_one(rs, i);
}

/// A primary result with strictly more archive nodes than every other primary
/// result is the canonical one, and the only one.
pub proof fn lemma_most_nodes_wins(rs: Seq<ExtractionResult>, preferred: Seq<char>, i: int)
    requires
        0 <= i < rs.len(),
        is_primary(rs[i]),
        forall|j: int|
            0 <= j < rs.len() && j != i && is_primary(#[trigger] rs[j]) ==> rs[j].file_node_count
                < rs[i].file_node_count,
    ensures
        is_winner(rs, i, preferred),
        forall|w: int| is_winner(rs, w, preferred) ==> w == i,
{
    assert forall|w: int| is_winner(rs, w, preferred) implies w == i by {
        if w != i {
            assert(ranks_at_least(rs[w], rs[i], preferred));
        }
    }
}

/// `later` holds the same results as `earlier`, in the order that `perm` gives:
/// entry `j` of `later` is entry `perm[j]` of `earlier`, and `perm` is a bijection.
pub open spec fn is_reordering(
    later: Seq<ExtractionResult>,
    earlier: Seq<ExtractionResult>,
    perm: Seq<int>,
) -> bool {
    &&& later.len() == earlier.len()
    &&& perm.len() == later.len()
    &&& forall|j: int| 0 <= j < perm.len() ==> 0 <= #[trigger] perm[j] < earlier.len()
    &&& forall|j: int| 0 <= j < later.len() ==> later[j] == earlier[#[trigger] perm[j]]
    &&& forall|j: int, k: int| 0 <= j < perm.len() && 0 <= k < perm.len() && j != k ==> #[trigger] perm[j] != #[trigger] perm[k]
    &&& forall|m: int| 0 <= m < earlier.len() ==> #[trigger] takes_value(perm, m)
}

/// Some entry of `perm` is `m`.
pub open spec fn takes_value(perm: Seq<int>, m: int) -> bool {
    exists|j: int| 0 <= j < perm.len() && perm[j] == m
}

/// When the primary results differ in archive node count at the top, the
/// canonical result does not depend on the order in which the engines'
/// results were collected: every reordering selects the same result.
pub proof fn lemma_winner_independent_of_order(
    earlier: Seq<ExtractionResult>,
    later: Seq<ExtractionResult>,
    perm: Seq<int>,
    preferred: Seq<char>,
    i: int,
)
    requires
        is_reordering(later, earlier, perm),
        0 <= i < earlier.len(),
        is_primary(earlier[i]),
        forall|j: int|
            0 <= j < earlier.len() && j != i && is_primary(#[trigger] earlier[j])
                ==> earlier[j].file_node_count < earlier[i].file_node_count,
    ensures
        forall|w1: int, w2: int|
            is_winner(earlier, w1, preferred) && is_winner(later, w2, preferred) ==> earlier[w1]
                == later[w2],
{
    lemma_most_nodes_wins(earlier, preferred, i);
    assert(takes_value(perm, i));
    let k = choose|j: int| 0 <= j < perm.len() && #[trigger] perm[j] == i;
    assert(later[k] == earlier[i]);
    assert forall|j: int|
        0 <= j < later.len() && j != k && is_primary(#[trigger] later[j]) implies later[j].file_node_count
        < later[k].file_node_count by {
        assert(later[j] == earlier[perm[j]]);
        assert(perm[j] != perm[k]);
    }
    lemma_most_nodes_wins(later, preferred, k);
}

/// Executable form of `ranks_at_least`.
fn ranks_at_least_exec(a: &ExtractionResult, b: &ExtractionResult, preferred: &String) -> (r: bool)
    ensures
        r == ranks_at_least(*a, *b, preferred@),
{
    a.file_node_count > b.file_node_count || (a.file_node_count == b.file_node_count && (
    a.extractor == *preferred || !(b.extractor == *preferred)))
}

/// Picks the canonical result among all engines' results.
///
/// Only primary results (rank 0) take part. With none, the outcome is
/// `NoneSucceeded` and there is no canonical result. Otherwise the canonical
/// result is the first primary result of the highest rank (node count, then
/// the preferred engine), and its position is returned beside the outcome.
pub fn select_best(results: &Vec<ExtractionResult>, preferred: &str) -> (r: (
    BestExtractor,
    Option<usize>,
))
    ensures
        r.1 is None <==> count_primary(results@) == 0,
        r.1 is None ==> r.0 == BestExtractor::NoneSucceeded,
        forall|w: usize|
            r.1 == Some(w) ==> is_winner(results@, w as int, preferred@) && r.0 == outcome_for(
                results@,
                w as int,
            ),
{
    let pref = String::from_str(preferred);
    let mut count: usize = 0;
    let mut best: Option<usize> = None;
    let mut agree = true;
    let mut i: usize = 0;
    while i < results.len()
        invariant
            i <= results.len(),
            pref@ == preferred@,
            count == count_primary(results@.take(i as int)),
            count <= i,
            best is None <==> count == 0,
            forall|b: usize| best == Some(b) ==> is_winner(results@.take(i as int), b as int, preferred@),
            forall|b: usize| best == Some(b) ==> agree == primaries_agree(results@.take(i as int)),
        decreases results.len() - i,
    {
        let ghost pre = results@.take(i as int);
        let ghost post = results@.take(i + 1);
        assert(post.drop_last() == pre);
        assert(post.last() == results@[i as int]);
        let c = &results[i];
        if c.index == 0 {
            count = count + 1;
            match best {
                None => {
                    best = Some(i);
                    agree = true;
                    proof {
                        lemma_count_primary_zero(pre);
                    }
                    assert forall|j: int| 0 <= j < post.len() && is_primary(#[trigger] post[j]) implies j == i by {
                        if j < i {
                            assert(post[j] == pre[j]);
                        }
                    }
                },
                Some(b) => {
                    assert(is_winner(pre, b as int, preferred@));
                    let bb = &results[b];
                    if !(c.archive_hash == bb.archive_hash) {
                        agree = false;
                        assert(post[b as int] == pre[b as int]);
                        assert(!(post[b as int].archive_hash@ == post[i as int].archive_hash@));
                    } else {
                        if agree {
                            assert forall|x: int, y: int|
                                0 <= x < post.len() && 0 <= y < post.len() && is_primary(#[trigger] post[x])
                                    && is_primary(#[trigger] post[y]) implies post[x].archive_hash@
                                == post[y].archive_hash@ by {
                                if x < i {
                                    assert(post[x] == pre[x]);
                                }
                                if y < i {
                                    assert(post[y] == pre[y]);
                                }
                                assert(post[b as int] == pre[b as int]);
                            }
                        } else {
                            let ghost (x, y) = choose|x: int, y: int|
                                0 <= x < pre.len() && 0 <= y < pre.len() && is_primary(#[trigger] pre[x])
                                    && is_primary(#[trigger] pre[y]) && !(pre[x].archive_hash@
                                    == pre[y].archive_hash@);
                            assert(post[x] == pre[x]);
                            assert(post[y] == pre[y]);
                        }
                    }
                    if !ranks_at_least_exec(bb, c, &pref) {
                        best = Some(i);
                        assert forall|j: int| 0 <= j < post.len() && is_primary(#[trigger] post[j]) implies ranks_at_least(post[i as int], post[j], preferred@) by {
                            if j < i {
                                assert(post[j] == pre[j]);
                                assert(ranks_at_least(pre[b as int], pre[j], preferred@));
                            }
                        }
                        assert forall|j: int| 0 <= j < i && is_primary(#[trigger] post[j]) implies !ranks_at_least(post[j], post[i as int], preferred@) by {
                            assert(post[j] == pre[j]);
                            assert(ranks_at_least(pre[b as int], pre[j], preferred@));
                        }
                    } else {
                        assert forall|j: int| 0 <= j < post.len() && is_primary(#[trigger] post[j]) implies ranks_at_least(post[b as int], post[j], preferred@) by {
                            if j < i {
                                assert(post[j] == pre[j]);
                            }
                        }
                        assert forall|j: int| 0 <= j < b && is_primary(#[trigger] post[j]) implies !ranks_at_least(post[j], post[b as int], preferred@) by {
                            assert(post[j] == pre[j]);
                        }
                    }
                },
            }
        } else {
            proof {
                if let Some(b) = best {
                    assert(is_winner(pre, b as int, preferred@));
                    assert forall|j: int| 0 <= j < post.len() && is_primary(#[trigger] post[j]) implies ranks_at_least(post[b as int], post[j], preferred@) by {
                        assert(post[j] == pre[j]);
                    }
                    assert forall|j: int| 0 <= j < b && is_primary(#[trigger] post[j]) implies !ranks_at_least(post[j], post[b as int], preferred@) by {
                        assert(post[j] == pre[j]);
                    }
                    if !agree {
                        let (x, y) = choose|x: int, y: int|
                            0 <= x < pre.len() && 0 <= y < pre.len() && is_primary(#[trigger] pre[x])
                                && is_primary(#[trigger] pre[y]) && !(pre[x].archive_hash@
                                == pre[y].archive_hash@);
                        assert(post[x] == pre[x]);
                        assert(post[y] == pre[y]);
                    } else {
                        assert forall|x: int, y: int|
                            0 <= x < post.len() && 0 <= y < post.len() && is_primary(#[trigger] post[x])
                                && is_primary(#[trigger] post[y]) implies post[x].archive_hash@
                            == post[y].archive_hash@ by {
                            assert(post[x] == pre[x]);
                            assert(post[y] == pre[y]);
                        }
                    }
                }
            }
        }
        i = i + 1;
    }
    assert(results@.take(results.len() as int) == results@);
    match best {
        None => (BestExtractor::NoneSucceeded, None),
        Some(b) => {
            assert(is_winner(results@, b as int, preferred@));
            let name = results[b].extractor.clone();
            if count == 1 {
                (BestExtractor::Only(name), best)
            } else if agree {
                (BestExtractor::Identical(name), best)
            } else {
                (BestExtractor::Best(name), best)
            }
        },
    }
}

/// The text that reports an outcome.
pub open spec fn report_text(b: BestExtractor) -> Seq<char> {
    match b {
        BestExtractor::Best(n) => "Best: "@ + n@,
        BestExtractor::Only(n) => "Only: "@ + n@,
        BestExtractor::Identical(n) => "Identical: "@ + n@,
        BestExtractor::NoneSucceeded => "None"@,
    }
}

impl BestExtractor {
    /// The engine whose archive became canonical, if any.
    pub fn engine(&self) -> (r: Option<&String>)
        ensures
            match *self {
                BestExtractor::Best(n) => r == Some(&n),
                BestExtractor::Only(n) => r == Some(&n),
                BestExtractor::Identical(n) => r == Some(&n),
                BestExtractor::NoneSucceeded => r is None,
            },
    {
        match self {
            BestExtractor::Best(n) => Some(n),
            BestExtractor::Only(n) => Some(n),
            BestExtractor::Identical(n) => Some(n),
            BestExtractor::NoneSucceeded => None,
        }
    }

    /// The report of the outcome: `Best: <engine>`, `Only: <engine>`,
    /// `Identical: <engine>` or `None`.
    pub fn report(&self) -> (r: String)
        ensures
            r@ == report_text(*self),
    {
        match self {
            BestExtractor::Best(n) => String::from_str("Best: ").concat(n.as_str()),
            BestExtractor::Only(n) => String::from_str("Only: ").concat(n.as_str()),
            BestExtractor::Identical(n) => String::from_str("Identical: ").concat(n.as_str()),
            BestExtractor::NoneSucceeded => String::from_str("None"),
        }
    }

    /// The exit status of a run with this outcome: 0 when a canonical
    /// archive was produced, 2 when no engine succeeded.
    pub fn exit_status(&self) -> (r: i32)
        ensures
            r == (if *self is NoneSucceeded { 2i32 } else { 0i32 }),
    {
        match self {
            BestExtractor::NoneSucceeded => 2,
            _ => 0,
        }
    }
}

} // verus!
