//! The decisions of one engine's extraction job.
//!
//! A job allocates a scratch directory, runs its engine into it, identifies
//! root filesystem candidates there, and archives the first `primary_limit` of
//! them. The outside work is done by the caller: each step here takes what
//! came of the previous action and says what to do next.
use vstd::prelude::*;
use crate::naming::{archive_file_name, archive_name};
use crate::rootfs::RootfsCandidate;
use crate::selection::{
    count_primary, is_primary, is_winner, lemma_single_primary_is_only, outcome_for,
    BestExtractor, ExtractionResult,
};

verus! {

/// Why one engine's job ended without archiving its candidates.
#[derive(Debug)]
pub enum ExtractProcessError {
    /// The scratch directory could not be allocated.
    TempDirFail(String),
    /// The engine failed on the input.
    ExtractFail(String),
    /// No root filesystem was found in the extracted contents.
    FailToFind,
    /// Writing or hashing an archive failed.
    ArchiveFail(String),
}

/// Where a job stands.
#[derive(Clone, Copy, Debug, PartialEq, Eq, Structural)]
pub enum JobPhase {
    Scratch,
    Extract,
    Identify,
    Archive,
    Done,
}

/// What came of the last action.
#[derive(Debug)]
pub enum JobEvent {
    ScratchReady,
    ScratchFailed(String),
    Extracted,
    ExtractFailed(String),
    /// The candidates found, best first.
    Identified(Vec<RootfsCandidate>),
    /// The archive asked for was written at `archive_path`, holding
    /// `node_count` entries, with content hash `archive_hash`.
    Archived { node_count: usize, archive_hash: String, archive_path: String },
    ArchiveFailed(String),
}

/// What the caller does next.
#[derive(Debug)]
pub enum JobAction {
    AllocateScratch,
    RunExtractor,
    IdentifyRootfs,
    /// Archive the candidate tree at `source` into the file `archive_name`
    /// of the output directory.
    BuildArchive { candidate: usize, source: String, archive_name: String },
    /// The job is over: release the scratch directory.
    Finish(Result<(), ExtractProcessError>),
    /// The event did not belong to the job's phase; nothing changed.
    Ignored,
}

/// The state of one engine's job.
pub struct JobRunner {
    pub engine: String,
    /// How many candidates, best first, are archived at most.
    pub primary_limit: usize,
    pub phase: JobPhase,
    pub candidates: Vec<RootfsCandidate>,
    /// The candidates found beyond the limit, which are not archived.
    pub skipped: usize,
    /// One result per archived candidate, in rank order.
    pub results: Vec<ExtractionResult>,
}

/// The result recorded for candidate `k` of `engine`.
pub open spec fn records_candidate(r: ExtractionResult, engine: Seq<char>, k: int, c: RootfsCandidate) -> bool {
    &&& r.extractor@ == engine
    &&& r.index == k
    &&& r.size == c.size
    &&& r.num_files == c.num_files
    &&& r.primary == (k == 0)
    &&& r.rootfs_path@ == c.path@
}

/// `a` asks for the archive of candidate `k`, with the name that `engine`
/// and `k` give.
pub open spec fn builds_archive(a: JobAction, engine: Seq<char>, cands: Seq<RootfsCandidate>, k: int) -> bool {
    match a {
        JobAction::BuildArchive { candidate, source, archive_name: name } => {
            &&& candidate == k
            &&& source@ == cands[k].path@
            &&& name@ == archive_name(engine, k as nat)
        },
        _ => false,
    }
}

impl JobRunner {
    /// How many candidates are archived.
    pub open spec fn archive_count(&self) -> nat {
        if self.candidates.len() < self.primary_limit {
            self.candidates.len() as nat
        } else {
            self.primary_limit as nat
        }
    }

    pub open spec fn wf(&self) -> bool {
        &&& self.results.len() <= self.archive_count()
        &&& self.phase == JobPhase::Archive ==> self.results.len() < self.archive_count()
        &&& (self.phase == JobPhase::Scratch || self.phase == JobPhase::Extract || self.phase
            == JobPhase::Identify) ==> self.candidates.len() == 0 && self.skipped == 0
        &&& forall|k: int|
            0 <= k < self.results.len() ==> records_candidate(
                #[trigger] self.results[k],
                self.engine@,
                k,
                self.candidates[k],
            )
    }

    /// A new job of `engine`, which archives at most `primary_limit` candidates.
    pub fn new(engine: String, primary_limit: usize) -> (r: JobRunner)
        ensures
            r.wf(),
            r.engine == engine,
            r.primary_limit == primary_limit,
            r.phase == JobPhase::Scratch,
            r.results.len() == 0,
    {
        JobRunner {
            engine,
            primary_limit,
            phase: JobPhase::Scratch,
            candidates: Vec::new(),
            skipped: 0,
            results: Vec::new(),
        }
    }

    /// The first action of a job.
    pub fn start(&self) -> (a: JobAction)
        ensures
            a == JobAction::AllocateScratch,
    {
        JobAction::AllocateScratch
    }

    /// The action that builds the archive of the next candidate.
    fn archive_next(&self) -> (a: JobAction)
        requires
            self.results.len() < self.candidates.len(),
        ensures
            builds_archive(a, self.engine@, self.candidates@, self.results.len() as int),
    {
        let k = self.results.len();
        let source = self.candidates[k].path.clone();
        let name = archive_file_name(self.engine.as_str(), k);
        JobAction::BuildArchive { candidate: k, source, archive_name: name }
    }

    /// Takes what came of the last action and gives the next one.
    pub fn step(&mut self, ev: JobEvent) -> (a: JobAction)
        requires
            old(self).wf(),
        ensures
            final(self).wf(),
            final(self).engine == old(self).engine,
            final(self).primary_limit == old(self).primary_limit,
            // results are only ever appended
            old(self).results@.len() <= final(self).results@.len(),
            forall|k: int| 0 <= k < old(self).results@.len() ==> final(self).results@[k] == old(self).results@[k],
            a is Ignored ==> *final(self) == *old(self),
            a == JobAction::Finish(Ok(())) ==> final(self).results@.len() == final(self).archive_count(),
            match (old(self).phase, ev) {
                (JobPhase::Scratch, JobEvent::ScratchReady) => final(self).phase == JobPhase::Extract
                    && a is RunExtractor && final(self).results@ == old(self).results@,
                (JobPhase::Scratch, JobEvent::ScratchFailed(m)) => final(self).phase == JobPhase::Done
                    && a == JobAction::Finish(Err(ExtractProcessError::TempDirFail(m)))
                    && final(self).results@ == old(self).results@,
                (JobPhase::Extract, JobEvent::Extracted) => final(self).phase == JobPhase::Identify
                    && a is IdentifyRootfs && final(self).results@ == old(self).results@,
                (JobPhase::Extract, JobEvent::ExtractFailed(m)) => final(self).phase == JobPhase::Done
                    && a == JobAction::Finish(Err(ExtractProcessError::ExtractFail(m)))
                    && final(self).results@ == old(self).results@,
                (JobPhase::Identify, JobEvent::Identified(cs)) => {
                    &&& final(self).candidates@ == cs@
                    &&& final(self).results@ == old(self).results@
                    &&& final(self).skipped == cs@.len() - final(self).archive_count()
                    &&& if cs@.len() == 0 {
                        final(self).phase == JobPhase::Done && a == JobAction::Finish(
                            Err(ExtractProcessError::FailToFind),
                        )
                    } else if old(self).primary_limit == 0 {
                        final(self).phase == JobPhase::Done && a == JobAction::Finish(Ok(()))
                    } else {
                        final(self).phase == JobPhase::Archive && builds_archive(a, old(self).engine@, cs@, 0)
                    }
                },
                (JobPhase::Archive, JobEvent::Archived { node_count, archive_hash, archive_path }) => {
                    let k = old(self).results@.len() as int;
                    &&& final(self).candidates@ == old(self).candidates@
                    &&& final(self).results@.len() == k + 1
                    &&& final(self).results@[k].file_node_count == node_count
                    &&& final(self).results@[k].archive_hash == archive_hash
                    &&& final(self).results@[k].path == archive_path
                    &&& if k + 1 < old(self).archive_count() {
                        final(self).phase == JobPhase::Archive && builds_archive(
                            a,
                            old(self).engine@,
                            old(self).candidates@,
                            k + 1,
                        )
                    } else {
                        final(self).phase == JobPhase::Done && a == JobAction::Finish(Ok(()))
                    }
                },
                (JobPhase::Archive, JobEvent::ArchiveFailed(m)) => final(self).phase == JobPhase::Done
                    && a == JobAction::Finish(Err(ExtractProcessError::ArchiveFail(m)))
                    && final(self).results@ == old(self).results@,
                _ => a is Ignored,
            },
    {
        match ev {
            JobEvent::ScratchReady => {
                if self.phase == JobPhase::Scratch {
                    self.phase = JobPhase::Extract;
                    JobAction::RunExtractor
                } else {
                    JobAction::Ignored
                }
            },
            JobEvent::ScratchFailed(m) => {
                if self.phase == JobPhase::Scratch {
                    self.phase = JobPhase::Done;
                    JobAction::Finish(Err(ExtractProcessError::TempDirFail(m)))
                } else {
                    JobAction::Ignored
                }
            },
            JobEvent::Extracted => {
                if self.phase == JobPhase::Extract {
                    self.phase = JobPhase::Identify;
                    JobAction::IdentifyRootfs
                } else {
                    JobAction::Ignored
                }
            },
            JobEvent::ExtractFailed(m) => {
                if self.phase == JobPhase::Extract {
                    self.phase = JobPhase::Done;
                    JobAction::Finish(Err(ExtractProcessError::ExtractFail(m)))
                } else {
                    JobAction::Ignored
                }
            },
            JobEvent::Identified(cs) => {
                if self.phase == JobPhase::Identify {
                    let n = cs.len();
                    self.candidates = cs;
                    let count = if n < self.primary_limit {
                        n
                    } else {
                        self.primary_limit
                    };
                    self.skipped = n - count;
                    if n == 0 {
                        self.phase = JobPhase::Done;
                        JobAction::Finish(Err(ExtractProcessError::FailToFind))
                    } else if self.primary_limit == 0 {
                        self.phase = JobPhase::Done;
                        JobAction::Finish(Ok(()))
                    } else {
                        self.phase = JobPhase::Archive;
                        self.archive_next()
                    }
                } else {
                    JobAction::Ignored
                }
            },
            JobEvent::Archived { node_count, archive_hash, archive_path } => {
                if self.phase == JobPhase::Archive {
                    let k = self.results.len();
                    let c = &self.candidates[k];
                    let r = ExtractionResult {
                        extractor: self.engine.clone(),
                        index: k,
                        size: c.size,
                        num_files: c.num_files,
                        primary: k == 0,
                        archive_hash,
                        file_node_count: node_count,
                        path: archive_path,
                        rootfs_path: c.path.clone(),
                    };
                    self.results.push(r);
                    let count = if self.candidates.len() < self.primary_limit {
                        self.candidates.len()
                    } else {
                        self.primary_limit
                    };
                    if k + 1 < count {
                        self.archive_next()
                    } else {
                        self.phase = JobPhase::Done;
                        JobAction::Finish(Ok(()))
                    }
                } else {
                    JobAction::Ignored
                }
            },
            JobEvent::ArchiveFailed(m) => {
                if self.phase == JobPhase::Archive {
                    self.phase = JobPhase::Done;
                    JobAction::Finish(Err(ExtractProcessError::ArchiveFail(m)))
                } else {
                    JobAction::Ignored
                }
            },
        }
    }
}

/// A single engine whose job ended well after finding at least one candidate,
/// with a limit of at least one, yields exactly one canonical result: its
/// first archive, reported as the only engine's.
pub proof fn lemma_single_engine_reports_only(job: JobRunner, preferred: Seq<char>)
    requires
        job.wf(),
        job.results@.len() == job.archive_count(),
        job.candidates@.len() >= 1,
        job.primary_limit >= 1,
    ensures
        count_primary(job.results@) == 1,
        is_winner(job.results@, 0, preferred),
        forall|w: int| is_winner(job.results@, w, preferred) ==> w == 0,
        outcome_for(job.results@, 0) == BestExtractor::Only(job.results@[0].extractor),
        job.results@[0].extractor@ == job.engine@,
        job.results@[0].primary,
{
    let rs = job.results@;
    assert(records_candidate(rs[0], job.engine@, 0, job.candidates[0]));
    assert forall|j: int| 0 <= j < rs.len() && j != 0 implies !is_primary(#[trigger] rs[j]) by {
        assert(records_candidate(job.results[j], job.engine@, j, job.candidates[j]));
    }
    lemma_single_primary_is_only(rs, preferred, 0);
}

} // verus!
