use header_downloader::execution::{ExecOutput, Execution, ExecutionError, ExecutionPlan};
use header_downloader::models::BlockNumber;

fn stage() -> Execution {
    Execution {
        batch_size: 1000,
        history_batch_size: 500,
        exit_after_batch: false,
        batch_until: Some(BlockNumber(50)),
        commit_every: Some(60_000),
        prune_from: BlockNumber(0),
    }
}

#[test]
fn execution_identity() {
    assert_eq!(stage().id(), "Execution");
    assert_eq!(stage().description(), "Execution of blocks through EVM");
}

#[test]
fn plan_starts_after_progress() {
    let e = stage();
    assert_eq!(e.plan(Some(BlockNumber(9)), None), Err(ExecutionError::NoPreviousStage));
    assert_eq!(
        e.plan(Some(BlockNumber(9)), Some(BlockNumber(20))),
        Ok(Some(ExecutionPlan { starting_block: BlockNumber(10), max_block: BlockNumber(20) }))
    );
    assert_eq!(
        e.plan(None, Some(BlockNumber(3))),
        Ok(Some(ExecutionPlan { starting_block: BlockNumber(1), max_block: BlockNumber(3) }))
    );
    assert_eq!(e.plan(Some(BlockNumber(20)), Some(BlockNumber(20))), Ok(None));
    assert_eq!(e.plan(Some(BlockNumber(u64::MAX)), Some(BlockNumber(u64::MAX))), Ok(None));
}

#[test]
fn batch_end_conditions() {
    let e = stage();
    assert!(e.is_end_of_batch(BlockNumber(20), BlockNumber(20), 0, 0));
    assert!(e.is_end_of_batch(BlockNumber(50), BlockNumber(99), 0, 0));
    assert!(e.is_end_of_batch(BlockNumber(10), BlockNumber(99), 1000, 0));
    assert!(e.is_end_of_batch(BlockNumber(10), BlockNumber(99), 0, 60_001));
    assert!(!e.is_end_of_batch(BlockNumber(10), BlockNumber(99), 999, 60_000));
}

#[test]
fn output_after_a_pass() {
    let mut e = stage();
    assert_eq!(
        e.output(Some(BlockNumber(9)), Some(BlockNumber(20)), BlockNumber(20)),
        ExecOutput { stage_progress: BlockNumber(20), done: true, must_commit: true }
    );
    assert_eq!(
        e.output(Some(BlockNumber(9)), Some(BlockNumber(15)), BlockNumber(20)),
        ExecOutput { stage_progress: BlockNumber(15), done: false, must_commit: true }
    );
    e.exit_after_batch = true;
    assert!(e.output(None, Some(BlockNumber(15)), BlockNumber(20)).done);
    assert_eq!(
        e.output(Some(BlockNumber(9)), None, BlockNumber(5)),
        ExecOutput { stage_progress: BlockNumber(9), done: true, must_commit: false }
    );
}
