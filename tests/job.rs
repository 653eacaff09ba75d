use fw2tar::job::{ExtractProcessError, JobAction, JobEvent, JobPhase, JobRunner};
use fw2tar::rootfs::RootfsCandidate;
use fw2tar::selection::{select_best, BestExtractor, PREFERRED_ENGINE};

fn cand(path: &str, files: usize) -> RootfsCandidate {
    RootfsCandidate { path: path.to_string(), size: 4096, num_files: files, score: 5, depth: 1 }
}

fn run_to_identify(job: &mut JobRunner) {
    assert!(matches!(job.step(JobEvent::ScratchReady), JobAction::RunExtractor));
    assert!(matches!(job.step(JobEvent::Extracted), JobAction::IdentifyRootfs));
}

#[test]
fn single_engine_with_candidate_reports_only() {
    let mut job = JobRunner::new("unblob".to_string(), 1);
    run_to_identify(&mut job);
    let a = job.step(JobEvent::Identified(vec![cand("/s/root", 40), cand("/s/root/rec", 4)]));
    match a {
        JobAction::BuildArchive { candidate, source, archive_name } => {
            assert_eq!(candidate, 0);
            assert_eq!(source, "/s/root");
            assert_eq!(archive_name, "rootfs.unblob.0.tar.gz");
        }
        other => panic!("unexpected action {other:?}"),
    }
    assert_eq!(job.skipped, 1);
    let a = job.step(JobEvent::Archived {
        node_count: 55,
        archive_hash: "ab".to_string(),
        archive_path: "/o/rootfs.unblob.0.tar.gz".to_string(),
    });
    assert!(matches!(a, JobAction::Finish(Ok(()))));
    assert_eq!(job.phase, JobPhase::Done);
    assert_eq!(job.results.len(), 1);
    let r = &job.results[0];
    assert_eq!(r.index, 0);
    assert!(r.primary);
    assert_eq!(r.extractor, "unblob");
    assert_eq!(r.file_node_count, 55);
    assert_eq!(r.num_files, 40);
    assert_eq!(r.rootfs_path, "/s/root");
    let (outcome, winner) = select_best(&job.results, PREFERRED_ENGINE);
    assert!(matches!(outcome, BestExtractor::Only(ref n) if n == "unblob"));
    assert_eq!(winner, Some(0));
}

#[test]
fn limit_two_archives_two_candidates() {
    let mut job = JobRunner::new("binwalk".to_string(), 2);
    run_to_identify(&mut job);
    job.step(JobEvent::Identified(vec![cand("/a", 9), cand("/b", 8), cand("/c", 7)]));
    let a = job.step(JobEvent::Archived {
        node_count: 1,
        archive_hash: "h0".to_string(),
        archive_path: "p0".to_string(),
    });
    match a {
        JobAction::BuildArchive { candidate, source, archive_name } => {
            assert_eq!(candidate, 1);
            assert_eq!(source, "/b");
            assert_eq!(archive_name, "rootfs.binwalk.1.tar.gz");
        }
        other => panic!("unexpected action {other:?}"),
    }
    let a = job.step(JobEvent::Archived {
        node_count: 2,
        archive_hash: "h1".to_string(),
        archive_path: "p1".to_string(),
    });
    assert!(matches!(a, JobAction::Finish(Ok(()))));
    assert_eq!(job.results.len(), 2);
    assert_eq!(job.results[1].index, 1);
    assert!(job.results[0].primary);
    assert!(!job.results[1].primary);
    assert_eq!(job.skipped, 1);
}

#[test]
fn zero_limit_archives_nothing() {
    let mut job = JobRunner::new("binwalk".to_string(), 0);
    run_to_identify(&mut job);
    let a = job.step(JobEvent::Identified(vec![cand("/a", 9)]));
    assert!(matches!(a, JobAction::Finish(Ok(()))));
    assert!(job.results.is_empty());
    assert_eq!(job.skipped, 1);
}

#[test]
fn each_failure_has_its_error() {
    let mut job = JobRunner::new("x".to_string(), 1);
    let a = job.step(JobEvent::ScratchFailed("no space".to_string()));
    assert!(matches!(a, JobAction::Finish(Err(ExtractProcessError::TempDirFail(ref m))) if m == "no space"));

    let mut job = JobRunner::new("x".to_string(), 1);
    job.step(JobEvent::ScratchReady);
    let a = job.step(JobEvent::ExtractFailed("timeout".to_string()));
    assert!(matches!(a, JobAction::Finish(Err(ExtractProcessError::ExtractFail(ref m))) if m == "timeout"));

    let mut job = JobRunner::new("x".to_string(), 1);
    run_to_identify(&mut job);
    job.step(JobEvent::Identified(vec![cand("/a", 1)]));
    let a = job.step(JobEvent::ArchiveFailed("disk full".to_string()));
    assert!(matches!(a, JobAction::Finish(Err(ExtractProcessError::ArchiveFail(ref m))) if m == "disk full"));
    assert!(job.results.is_empty());
}

#[test]
fn out_of_order_event_is_ignored() {
    let mut job = JobRunner::new("x".to_string(), 1);
    assert!(matches!(job.step(JobEvent::Extracted), JobAction::Ignored));
    assert_eq!(job.phase, JobPhase::Scratch);
    assert!(matches!(job.step(JobEvent::ScratchReady), JobAction::RunExtractor));
    assert!(matches!(job.step(JobEvent::ScratchReady), JobAction::Ignored));
    assert_eq!(job.phase, JobPhase::Extract);
}

