use keyword_dataset_rs::content::ArxivPaperContent;
use keyword_dataset_rs::err::AppError;
use keyword_dataset_rs::extraction::ExtractError;
use keyword_dataset_rs::orchestrator::BatchCollector;
use keyword_dataset_rs::orchestrator::DbAction;
use keyword_dataset_rs::orchestrator::ExtractionOutcome;
use keyword_dataset_rs::orchestrator::chunk_ids;
use keyword_dataset_rs::orchestrator::effective_parallelism;
use keyword_dataset_rs::orchestrator::plan_batch;
use keyword_dataset_rs::orchestrator::plan_outcome;
use keyword_dataset_rs::orchestrator::run_universe;

fn success(id: &str) -> ExtractionOutcome {
    ExtractionOutcome::Success(ArxivPaperContent {
        id: id.to_string(),
        abstract_text: String::new(),
        keywords: vec!["k".to_string()],
        paper_content: "body".to_string(),
    })
}

fn failure(id: &str) -> ExtractionOutcome {
    ExtractionOutcome::Failure(ExtractError {
        arxiv_id: id.to_string(),
        err: AppError::NoKeywords,
    })
}

fn action_id(a: &DbAction) -> String {
    match a {
        DbAction::UpdateContent(c) => c.id.clone(),
        DbAction::AppendStatus(rec) => rec.arxiv_id.clone(),
    }
}

#[test]
fn collector_receives_exactly_one_outcome_per_dispatched_id() {
    let ids: Vec<String> = ["a", "b", "c"].iter().map(|s| s.to_string()).collect();
    let mut c = BatchCollector::new(ids.clone());
    assert!(!c.is_complete());
    assert!(c.record(success("b")));
    assert!(c.record(failure("a")));
    // an outcome for an identifier that was never dispatched is refused
    assert!(!c.record(success("zzz")));
    // a second outcome for an identifier already answered is refused too
    assert!(!c.record(success("a")));
    assert!(!c.is_complete());
    assert!(c.record(success("c")));
    assert!(c.is_complete());
    let outcomes = c.into_outcomes();
    assert_eq!(outcomes.len(), 3);
    let mut outcome_ids: Vec<String> =
        outcomes.iter().map(|o| o.id().to_string()).collect();
    outcome_ids.sort();
    assert_eq!(outcome_ids, ids);
    let successes = outcomes.iter().filter(|o| matches!(o, ExtractionOutcome::Success(_))).count();
    let failures = outcomes.iter().filter(|o| matches!(o, ExtractionOutcome::Failure(_))).count();
    assert_eq!(successes + failures, 3);
}

#[test]
fn sampled_success_writes_status_then_content() {
    let plan = plan_outcome(success("2501.1"), true);
    assert_eq!(plan.len(), 2);
    match &plan[0] {
        DbAction::AppendStatus(rec) => {
            assert_eq!(rec.arxiv_id, "2501.1");
            assert_eq!(rec.extract_status, "OK");
            assert!(rec.extract_msg.is_none());
        },
        other => panic!("expected a status row first, got {other:?}"),
    }
    match &plan[1] {
        DbAction::UpdateContent(c) => assert_eq!(c.id, "2501.1"),
        other => panic!("expected a content row second, got {other:?}"),
    }
}

#[test]
fn full_corpus_success_writes_content_only() {
    let plan = plan_outcome(success("2501.2"), false);
    assert_eq!(plan.len(), 1);
    assert!(matches!(&plan[0], DbAction::UpdateContent(c) if c.id == "2501.2"));
}

#[test]
fn failure_appends_status_with_kind_and_message() {
    let o = ExtractionOutcome::Failure(ExtractError {
        arxiv_id: "2501.3".to_string(),
        err: AppError::MissingSection("REFERENCES".to_string()),
    });
    let plan = plan_outcome(o, true);
    assert_eq!(plan.len(), 1);
    match &plan[0] {
        DbAction::AppendStatus(rec) => {
            assert_eq!(rec.arxiv_id, "2501.3");
            assert_eq!(rec.extract_status, "MISSING_SECTION");
            assert_eq!(rec.extract_msg.as_deref(), Some("REFERENCES"));
        },
        other => panic!("expected a status row, got {other:?}"),
    }
}

#[test]
fn batch_plan_covers_every_outcome() {
    let outcomes = vec![success("a.1"), failure("a.2"), success("a.3")];
    let plan = plan_batch(outcomes, true);
    // two writes per success, one per failure
    assert_eq!(plan.len(), 5);
    let status_ids: Vec<String> = plan
        .iter()
        .filter(|a| matches!(a, DbAction::AppendStatus(_)))
        .map(action_id)
        .collect();
    assert_eq!(status_ids, vec!["a.1", "a.2", "a.3"]);
}

#[test]
fn second_unprocessed_run_never_touches_recorded_ids() {
    // First unprocessed-only run: both identifiers get status rows.
    let plan1 = plan_batch(vec![success("b.1"), failure("b.2")], true);
    let recorded: Vec<String> = plan1
        .iter()
        .filter(|a| matches!(a, DbAction::AppendStatus(_)))
        .map(|a| action_id(a))
        .collect();
    // The second sample may only hold identifiers without a status row.
    let plan2 = plan_batch(vec![success("b.3")], true);
    for action in &plan2 {
        assert!(!recorded.contains(&action_id(action)));
    }
}

#[test]
fn chunks_are_full_except_the_last() {
    let ids: Vec<String> = ["a", "b", "c", "d", "e"].iter().map(|s| s.to_string()).collect();
    let chunks = chunk_ids(ids, 2);
    assert_eq!(chunks.len(), 3);
    assert_eq!(chunks[0], vec!["a", "b"]);
    assert_eq!(chunks[1], vec!["c", "d"]);
    assert_eq!(chunks[2], vec!["e"]);
    assert_eq!(chunk_ids(Vec::new(), 4).len(), 0);
}

#[test]
fn sizing_picks_sampled_mode_on_a_requested_count() {
    assert_eq!(run_universe(Some(50), 1000), (50, true));
    assert_eq!(run_universe(None, 1000), (1000, false));
}

#[test]
fn zero_parallelism_means_all_available() {
    assert_eq!(effective_parallelism(0, 8), 8);
    assert_eq!(effective_parallelism(3, 8), 3);
}
