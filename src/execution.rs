use vstd::prelude::*;
use crate::models::BlockNumber;

verus! {

/// Settings of the block execution stage. Durations are in milliseconds.
#[derive(Copy, Clone, Debug, PartialEq, Eq, Structural)]
pub struct Execution {
    pub batch_size: u64,
    pub history_batch_size: u64,
    pub exit_after_batch: bool,
    pub batch_until: Option<BlockNumber>,
    pub commit_every: Option<u64>,
    pub prune_from: BlockNumber,
}

/// What a pass of the stage reports.
#[derive(Copy, Clone, Debug, PartialEq, Eq, Structural)]
pub struct ExecOutput {
    pub stage_progress: BlockNumber,
    pub done: bool,
    pub must_commit: bool,
}

/// The blocks a pass of the stage is to execute.
#[derive(Copy, Clone, Debug, PartialEq, Eq, Structural)]
pub struct ExecutionPlan {
    pub starting_block: BlockNumber,
    pub max_block: BlockNumber,
}

#[derive(Copy, Clone, Debug, PartialEq, Eq, Structural)]
pub enum ExecutionError {
    /// The stage before this one has reported no progress.
    NoPreviousStage,
}

/// A batch ends at `block_number` when the stage's target is reached, the
/// block limit is passed, the gas budget is spent or the commit interval has
/// elapsed.
pub open spec fn end_of_batch_spec(
    block_number: u64,
    max_block: u64,
    batch_until: Option<BlockNumber>,
    gas_since_start: u64,
    batch_size: u64,
    elapsed_ms: u64,
    commit_every: Option<u64>,
) -> bool {
    block_number == max_block || (batch_until matches Some(b) && block_number >= b.0)
        || gas_since_start >= batch_size || (commit_every matches Some(c) && elapsed_ms > c)
}

impl Execution {
    pub fn id(&self) -> (r: &'static str) {
        "Execution"
    }

    pub fn description(&self) -> (r: &'static str) {
        "Execution of blocks through EVM"
    }

    /// Whether the batch ends after `block_number`, with `elapsed_ms` since it began.
    pub fn is_end_of_batch(
        &self,
        block_number: BlockNumber,
        max_block: BlockNumber,
        gas_since_start: u64,
        elapsed_ms: u64,
    ) -> (r: bool)
        ensures
            r == end_of_batch_spec(
                block_number.0,
                max_block.0,
                self.batch_until,
                gas_since_start,
                self.batch_size,
                elapsed_ms,
                self.commit_every,
            ),
    {
        let until = match self.batch_until {
            Some(b) => block_number.0 >= b.0,
            None => false,
        };
        let timed = match self.commit_every {
            Some(c) => elapsed_ms > c,
            None => false,
        };
        block_number.0 == max_block.0 || until || gas_since_start >= self.batch_size || timed
    }

    /// The blocks to execute after `stage_progress`, up to what the previous
    /// stage reached; `None` when there is nothing to do.
    pub fn plan(
        &self,
        stage_progress: Option<BlockNumber>,
        previous_stage: Option<BlockNumber>,
    ) -> (r: Result<Option<ExecutionPlan>, ExecutionError>)
        ensures
            previous_stage is None ==> r == Err::<Option<ExecutionPlan>, ExecutionError>(
                ExecutionError::NoPreviousStage,
            ),
            previous_stage matches Some(max) ==> ({
                let prev = match stage_progress {
                    Some(p) => p.0 as int,
                    None => 0,
                };
                if max.0 >= prev + 1 {
                    r == Ok::<Option<ExecutionPlan>, ExecutionError>(
                        Some(ExecutionPlan { starting_block: BlockNumber((prev + 1) as u64), max_block: max }),
                    )
                } else {
                    r == Ok::<Option<ExecutionPlan>, ExecutionError>(None)
                }
            }),
    {
        let max_block = match previous_stage {
            Some(m) => m,
            None => {
                return Err(ExecutionError::NoPreviousStage);
            },
        };
        let prev: u64 = match stage_progress {
            Some(p) => p.0,
            None => 0,
        };
        if prev < u64::MAX && max_block.0 >= prev + 1 {
            Ok(Some(ExecutionPlan { starting_block: BlockNumber(prev + 1), max_block }))
        } else {
            Ok(None)
        }
    }

    /// The stage's report after executing up to `executed_to`, or after a pass
    /// with nothing to do (`None`) from `stage_progress`.
    pub fn output(
        &self,
        stage_progress: Option<BlockNumber>,
        executed_to: Option<BlockNumber>,
        max_block: BlockNumber,
    ) -> (r: ExecOutput)
        ensures
            executed_to matches Some(e) ==> r == (ExecOutput {
                stage_progress: e,
                done: e == max_block || self.exit_after_batch,
                must_commit: true,
            }),
            executed_to is None ==> r == (ExecOutput {
                stage_progress: match stage_progress {
                    Some(p) => p,
                    None => BlockNumber(0),
                },
                done: true,
                must_commit: false,
            }),
    {
        match executed_to {
            Some(e) => ExecOutput {
                stage_progress: e,
                done: e.0 == max_block.0 || self.exit_after_batch,
                must_commit: true,
            },
            None => ExecOutput {
                stage_progress: match stage_progress {
                    Some(p) => p,
                    None => BlockNumber(0),
                },
                done: true,
                must_commit: false,
            },
        }
    }
}

} // verus!
