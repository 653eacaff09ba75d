use fw2tar::job::{JobAction, JobEvent, JobRunner};
use fw2tar::selection::{select_best, BestExtractor, ExtractionResult, PREFERRED_ENGINE};

fn result(engine: &str, index: usize, nodes: usize, hash: &str) -> ExtractionResult {
    ExtractionResult {
        extractor: engine.to_string(),
        index,
        size: 1000,
        num_files: 10,
        primary: index == 0,
        archive_hash: hash.to_string(),
        file_node_count: nodes,
        path: format!("out/rootfs.{engine}.{index}.tar.gz"),
        rootfs_path: format!("xfs-extract/{engine}/root"),
    }
}

fn engine_name(b: &BestExtractor) -> Option<String> {
    b.engine().cloned()
}

#[test]
fn two_engines_higher_node_count_wins() {
    let results = vec![result("A", 0, 500, "aa"), result("B", 0, 600, "bb")];
    let (outcome, winner) = select_best(&results, PREFERRED_ENGINE);
    assert!(matches!(outcome, BestExtractor::Best(ref n) if n == "B"));
    assert_eq!(winner, Some(1));
    assert_eq!(outcome.report(), "Best: B");
    assert_eq!(outcome.exit_status(), 0);
    assert_eq!(results[winner.unwrap()].path, "out/rootfs.B.0.tar.gz");
}

#[test]
fn winner_does_not_depend_on_completion_order() {
    let a = result("A", 0, 500, "aa");
    let b = result("B", 0, 600, "bb");
    let c = result("C", 0, 550, "cc");
    let orders = vec![
        vec![a.clone(), b.clone(), c.clone()],
        vec![b.clone(), c.clone(), a.clone()],
        vec![c.clone(), a.clone(), b.clone()],
        vec![c.clone(), b.clone(), a.clone()],
    ];
    for rs in orders {
        let (outcome, winner) = select_best(&rs, PREFERRED_ENGINE);
        assert_eq!(engine_name(&outcome), Some("B".to_string()));
        assert_eq!(rs[winner.unwrap()].file_node_count, 600);
    }
}

#[test]
fn single_primary_is_reported_as_only() {
    let results = vec![result("A", 0, 10, "aa"), result("A", 1, 900, "bb")];
    let (outcome, winner) = select_best(&results, PREFERRED_ENGINE);
    assert!(matches!(outcome, BestExtractor::Only(ref n) if n == "A"));
    assert_eq!(winner, Some(0));
    assert_eq!(outcome.report(), "Only: A");
}

#[test]
fn no_primary_result_means_none() {
    let (outcome, winner) = select_best(&Vec::new(), PREFERRED_ENGINE);
    assert!(matches!(outcome, BestExtractor::NoneSucceeded));
    assert_eq!(winner, None);
    assert_eq!(outcome.report(), "None");
    assert_eq!(outcome.exit_status(), 2);

    let secondary_only = vec![result("A", 1, 10, "aa"), result("B", 2, 20, "bb")];
    let (outcome, winner) = select_best(&secondary_only, PREFERRED_ENGINE);
    assert!(matches!(outcome, BestExtractor::NoneSucceeded));
    assert_eq!(winner, None);
}

#[test]
fn node_count_tie_prefers_designated_engine() {
    let results = vec![
        result("binwalk", 0, 700, "aa"),
        result("unblob", 0, 700, "bb"),
        result("binwalkv3", 0, 700, "cc"),
    ];
    let (outcome, winner) = select_best(&results, PREFERRED_ENGINE);
    assert!(matches!(outcome, BestExtractor::Best(ref n) if n == "unblob"));
    assert_eq!(winner, Some(1));
}

#[test]
fn node_count_tie_without_preferred_engine_keeps_first() {
    let results = vec![result("binwalk", 0, 700, "aa"), result("binwalkv3", 0, 700, "cc")];
    let (outcome, winner) = select_best(&results, PREFERRED_ENGINE);
    assert!(matches!(outcome, BestExtractor::Best(ref n) if n == "binwalk"));
    assert_eq!(winner, Some(0));
}

#[test]
fn agreeing_engines_are_reported_identical() {
    let results = vec![
        result("binwalk", 0, 700, "same"),
        result("unblob", 0, 700, "same"),
        result("unblob", 1, 3, "other"),
    ];
    let (outcome, winner) = select_best(&results, PREFERRED_ENGINE);
    assert!(matches!(outcome, BestExtractor::Identical(ref n) if n == "unblob"));
    assert_eq!(winner, Some(1));
    assert_eq!(outcome.report(), "Identical: unblob");
}

#[test]
fn single_engine_without_candidates_reports_none() {
    let mut job = JobRunner::new("A".to_string(), 1);
    assert!(matches!(job.start(), JobAction::AllocateScratch));
    assert!(matches!(job.step(JobEvent::ScratchReady), JobAction::RunExtractor));
    assert!(matches!(job.step(JobEvent::Extracted), JobAction::IdentifyRootfs));
    let a = job.step(JobEvent::Identified(Vec::new()));
    assert!(matches!(a, JobAction::Finish(Err(fw2tar::job::ExtractProcessError::FailToFind))));
    assert!(job.results.is_empty());
    let (outcome, winner) = select_best(&job.results, PREFERRED_ENGINE);
    assert_eq!(outcome.report(), "None");
    assert_eq!(winner, None);
    assert_ne!(outcome.exit_status(), 0);
}
