//! Identification of Linux root filesystems in an extracted tree.
//!
//! Each directory of the tree is scored by how many of the canonical
//! top-level directories of a Linux root filesystem it holds. Directories
//! that score at least `MIN_LIKENESS` are candidates, nested ones included.
//! Candidates are ranked by score, then file count (more first), then depth
//! (shallower first), then path, so that the ranking does not depend on the
//! order in which the tree was walked.
use vstd::prelude::*;
use crate::devices::views;
use crate::order::{asymmetric, lemma_sorted_determined, sorted_by};
use crate::text::{lemma_lex_total, lemma_lex_transitive, lex_lt, str_less};

verus! {

/// What the identifier reads of one directory of the extracted tree.
#[derive(Clone, Debug)]
pub struct DirSummary {
    /// The directory.
    pub path: String,
    /// Number of path components below the root of the tree.
    pub depth: usize,
    /// Names of its directory-like children: child directories, and symbolic
    /// links among its children (so that `bin -> usr/bin` counts as `bin`).
    pub subdirs: Vec<String>,
    /// Cumulative byte size of the files below it.
    pub size: u64,
    /// Number of files below it.
    pub num_files: usize,
}

/// A directory judged to be a Linux root filesystem.
#[derive(Clone, Debug)]
pub struct RootfsCandidate {
    /// The candidate's root directory.
    pub path: String,
    /// Cumulative byte size of the files below it.
    pub size: u64,
    /// Number of files below it.
    pub num_files: usize,
    /// How many canonical top-level directories it holds.
    pub score: usize,
    /// Number of path components below the root of the tree.
    pub depth: usize,
}

/// The canonical top-level directories of a Linux root filesystem.
pub open spec fn canonical_dirs() -> Seq<Seq<char>> {
    seq!["bin"@, "dev"@, "etc"@, "lib"@, "sbin"@, "usr"@, "var"@]
}

/// How many of the first `n` canonical directories are among `subdirs`.
pub open spec fn likeness_upto(subdirs: Seq<Seq<char>>, n: nat) -> nat
    decreases n,
{
    if n == 0 {
        0
    } else {
        likeness_upto(subdirs, (n - 1) as nat) + if subdirs.contains(canonical_dirs()[n - 1]) {
            1nat
        } else {
            0nat
        }
    }
}

/// How many canonical directories are among `subdirs`.
pub open spec fn likeness(subdirs: Seq<Seq<char>>) -> nat {
    likeness_upto(subdirs, canonical_dirs().len())
}

/// The least score of a candidate.
pub const MIN_LIKENESS: usize = 3;

pub open spec fn is_candidate(d: DirSummary) -> bool {
    likeness(views(d.subdirs@)) >= MIN_LIKENESS
}

pub open spec fn candidate_of(d: DirSummary) -> RootfsCandidate {
    RootfsCandidate {
        path: d.path,
        size: d.size,
        num_files: d.num_files,
        score: likeness(views(d.subdirs@)) as usize,
        depth: d.depth,
    }
}

/// `a` ranks strictly before `b`.
pub open spec fn ranks_before(a: RootfsCandidate, b: RootfsCandidate) -> bool {
    if a.score != b.score {
        a.score > b.score
    } else if a.num_files != b.num_files {
        a.num_files > b.num_files
    } else if a.depth != b.depth {
        a.depth < b.depth
    } else {
        lex_lt(a.path@, b.path@)
    }
}

pub open spec fn rank_order() -> spec_fn(RootfsCandidate, RootfsCandidate) -> bool {
    |a: RootfsCandidate, b: RootfsCandidate| ranks_before(a, b)
}

/// No two directories of the listing share a path.
pub open spec fn distinct_paths(dirs: Seq<DirSummary>) -> bool {
    forall|i: int, j: int| 0 <= i < dirs.len() && 0 <= j < dirs.len() && i != j ==> #[trigger] dirs[i].path@ != #[trigger] dirs[j].path@
}

/// `c` is the candidate of some directory of `dirs`.
pub open spec fn found_in(dirs: Seq<DirSummary>, c: RootfsCandidate) -> bool {
    exists|i: int| 0 <= i < dirs.len() && is_candidate(#[trigger] dirs[i]) && c == candidate_of(dirs[i])
}

/// `r` is the ranked candidate sequence of the listing `dirs`: exactly the
/// candidates of its directories, each ranked strictly before the next.
pub open spec fn identifies(dirs: Seq<DirSummary>, r: Seq<RootfsCandidate>) -> bool {
    &&& sorted_by(r, rank_order())
    &&& forall|c: RootfsCandidate| r.contains(c) <==> found_in(dirs, c)
}

/// The canonical directories, as strings.
fn canonical_dir_names() -> (r: Vec<String>)
    ensures
        views(r@) == canonical_dirs(),
{
    let mut v: Vec<String> = Vec::new();
    v.push(String::from_str("bin"));
    v.push(String::from_str("dev"));
    v.push(String::from_str("etc"));
    v.push(String::from_str("lib"));
    v.push(String::from_str("sbin"));
    v.push(String::from_str("usr"));
    v.push(String::from_str("var"));
    assert(views(v@) =~= canonical_dirs());
    v
}

/// Whether `name` is among `names`.
fn contains_name(names: &Vec<String>, name: &String) -> (r: bool)
    ensures
        r == views(names@).contains(name@),
{
    let mut i: usize = 0;
    while i < names.len()
        invariant
            i <= names@.len(),
            forall|j: int| 0 <= j < i ==> views(names@)[j] != name@,
        decreases names@.len() - i,
    {
        assert(views(names@)[i as int] == names@[i as int]@);
        if names[i] == *name {
            return true;
        }
        i = i + 1;
    }
    false
}

/// The score of a directory with child directories `subdirs`.
pub fn likeness_of(subdirs: &Vec<String>) -> (r: usize)
    ensures
        r == likeness(views(subdirs@)),
        r <= 7,
{
    let canon = canonical_dir_names();
    let mut score: usize = 0;
    let mut k: usize = 0;
    while k < canon.len()
        invariant
            views(canon@) == canonical_dirs(),
            k <= canon@.len(),
            score == likeness_upto(views(subdirs@), k as nat),
            score <= k,
        decreases canon@.len() - k,
    {
        assert(views(canon@)[k as int] == canon@[k as int]@);
        if contains_name(subdirs, &canon[k]) {
            score = score + 1;
        }
        k = k + 1;
    }
    score
}

/// Executable form of `ranks_before`.
fn ranks_before_exec(a: &RootfsCandidate, b: &RootfsCandidate) -> (r: bool)
    ensures
        r == ranks_before(*a, *b),
{
    if a.score != b.score {
        a.score > b.score
    } else if a.num_files != b.num_files {
        a.num_files > b.num_files
    } else if a.depth != b.depth {
        a.depth < b.depth
    } else {
        str_less(a.path.as_str(), b.path.as_str())
    }
}

proof fn lemma_rank_total(a: RootfsCandidate, b: RootfsCandidate)
    ensures
        a.path@ != b.path@ ==> ranks_before(a, b) || ranks_before(b, a),
        !(ranks_before(a, b) && ranks_before(b, a)),
{
    lemma_lex_total(a.path@, b.path@);
}

proof fn lemma_rank_transitive(a: RootfsCandidate, b: RootfsCandidate, c: RootfsCandidate)
    requires
        ranks_before(a, b),
        ranks_before(b, c),
    ensures
        ranks_before(a, c),
{
    if a.score == b.score && b.score == c.score && a.num_files == b.num_files && b.num_files
        == c.num_files && a.depth == b.depth && b.depth == c.depth {
        lemma_lex_transitive(a.path@, b.path@, c.path@);
    }
}

/// The candidate of directory `d`.
fn candidate_from(d: &DirSummary) -> (r: RootfsCandidate)
    ensures
        r == candidate_of(*d),
{
    RootfsCandidate {
        path: d.path.clone(),
        size: d.size,
        num_files: d.num_files,
        score: likeness_of(&d.subdirs),
        depth: d.depth,
    }
}

/// The root filesystem candidates of the directories `dirs` of an extracted
/// tree, best first. A tree without candidates gives an empty sequence.
pub fn find_linux_filesystems(dirs: &Vec<DirSummary>) -> (r: Vec<RootfsCandidate>)
    requires
        distinct_paths(dirs@),
    ensures
        identifies(dirs@, r@),
{
    let mut out: Vec<RootfsCandidate> = Vec::new();
    let mut i: usize = 0;
    while i < dirs.len()
        invariant
            i <= dirs@.len(),
            distinct_paths(dirs@),
            sorted_by(out@, rank_order()),
            forall|c: RootfsCandidate| out@.contains(c) <==> found_in(dirs@.take(i as int), c),
            forall|c: RootfsCandidate| #[trigger] out@.contains(c) ==> exists|j: int| 0 <= j < i && c.path == #[trigger] dirs@[j].path,
        decreases dirs@.len() - i,
    {
        let d = &dirs[i];
        let ghost pre = dirs@.take(i as int);
        let ghost post = dirs@.take(i + 1);
        let ghost ov = out@;
        assert forall|c: RootfsCandidate| found_in(post, c) <==> found_in(pre, c) || (is_candidate(*d) && c == candidate_of(*d)) by {
            if found_in(post, c) {
                let k = choose|k: int| 0 <= k < post.len() && is_candidate(#[trigger] post[k]) && c == candidate_of(post[k]);
                if k < i {
                    assert(pre[k] == post[k]);
                }
            }
            if found_in(pre, c) {
                let k = choose|k: int| 0 <= k < pre.len() && is_candidate(#[trigger] pre[k]) && c == candidate_of(pre[k]);
                assert(pre[k] == post[k]);
            }
            if is_candidate(*d) && c == candidate_of(*d) {
                assert(post[i as int] == *d);
            }
        }
        let score = likeness_of(&d.subdirs);
        if score >= MIN_LIKENESS {
            let x = candidate_from(d);
            let mut p: usize = 0;
            while p < out.len() && ranks_before_exec(&out[p], &x)
                invariant
                    p <= out@.len(),
                    ov == out@,
                    forall|j: int| 0 <= j < p ==> ranks_before(#[trigger] ov[j], x),
                decreases out@.len() - p,
            {
                p = p + 1;
            }
            proof {
                if p < ov.len() {
                    assert(ov.contains(ov[p as int]));
                    let j = choose|j: int| 0 <= j < i && ov[p as int].path == #[trigger] dirs@[j].path;
                    assert(dirs@[j].path@ != dirs@[i as int].path@);
                    lemma_rank_total(ov[p as int], x);
                }
            }
            out.insert(p, x);
            let ghost nv = out@;
            assert(nv =~= ov.insert(p as int, x));
            assert forall|a: int, b: int| 0 <= a < b < nv.len() implies (#[trigger] rank_order()(nv[a], #[trigger] nv[b])) by {
                if b < p {
                    assert(rank_order()(ov[a], ov[b]));
                } else if b == p {
                } else if a < p {
                    if b - 1 > p {
                        assert(rank_order()(ov[p as int], ov[b - 1]));
                    }
                    lemma_rank_transitive(ov[a], x, ov[p as int]);
                    if b - 1 > p {
                        lemma_rank_transitive(ov[a], ov[p as int], ov[b - 1]);
                    }
                } else if a == p {
                    if b - 1 > p {
                        assert(rank_order()(ov[p as int], ov[b - 1]));
                        lemma_rank_transitive(x, ov[p as int], ov[b - 1]);
                    }
                } else {
                    assert(rank_order()(ov[a - 1], ov[b - 1]));
                }
            }
            assert forall|y: RootfsCandidate| nv.contains(y) <==> ov.contains(y) || y == x by {
                if nv.contains(y) {
                    let k = choose|k: int| 0 <= k < nv.len() && nv[k] == y;
                    if k < p {
                        assert(ov[k] == y);
                    } else if k > p {
                        assert(ov[k - 1] == y);
                    }
                }
                if ov.contains(y) {
                    let k = choose|k: int| 0 <= k < ov.len() && ov[k] == y;
                    if k < p {
                        assert(nv[k] == y);
                    } else {
                        assert(nv[k + 1] == y);
                    }
                }
                if y == x {
                    assert(nv[p as int] == y);
                }
            }
            assert forall|c: RootfsCandidate| #[trigger] nv.contains(c) implies exists|j: int| 0 <= j < i + 1 && c.path == #[trigger] dirs@[j].path by {
                if c == x {
                    assert(c.path == dirs@[i as int].path);
                } else {
                    assert(ov.contains(c));
                }
            }
        } else {
            assert(!is_candidate(*d));
        }
        i = i + 1;
    }
    assert(dirs@.take(dirs@.len() as int) == dirs@);
    out
}

/// The identifier is idempotent, and blind to the order of the walk: two
/// listings of the same directories, in any order, give the same ranked
/// candidates.
pub proof fn lemma_identification_determined(
    dirs1: Seq<DirSummary>,
    dirs2: Seq<DirSummary>,
    r1: Seq<RootfsCandidate>,
    r2: Seq<RootfsCandidate>,
)
    requires
        forall|d: DirSummary| dirs1.contains(d) <==> dirs2.contains(d),
        identifies(dirs1, r1),
        identifies(dirs2, r2),
    ensures
        r1 == r2,
{
    let lt = rank_order();
    assert(asymmetric(lt)) by {
        assert forall|x: RootfsCandidate, y: RootfsCandidate| #[trigger] lt(x, y) implies !lt(y, x) by {
            lemma_rank_total(x, y);
        }
    }
    assert forall|c: RootfsCandidate| r1.contains(c) <==> r2.contains(c) by {
        if found_in(dirs1, c) {
            let k = choose|k: int| 0 <= k < dirs1.len() && is_candidate(#[trigger] dirs1[k]) && c == candidate_of(dirs1[k]);
            assert(dirs1.contains(dirs1[k]));
            let m = choose|m: int| 0 <= m < dirs2.len() && dirs2[m] == dirs1[k];
            assert(is_candidate(dirs2[m]));
        }
        if found_in(dirs2, c) {
            let k = choose|k: int| 0 <= k < dirs2.len() && is_candidate(#[trigger] dirs2[k]) && c == candidate_of(dirs2[k]);
            assert(dirs2.contains(dirs2[k]));
            let m = choose|m: int| 0 <= m < dirs1.len() && dirs1[m] == dirs2[k];
            assert(is_candidate(dirs1[m]));
        }
    }
    lemma_sorted_determined(r1, r2, lt);
}

} // verus!
