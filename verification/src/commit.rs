//! The partition of a write plan into transactions, and the course of a
//! commit: one transaction after the other, in the plan's order, until all
//! are committed or one fails.
//!
//! The caller does the database's work. It asks for the next step, begins a
//! transaction and commits the batch that the step names, and reports how
//! that went. A failure ends the commit; the batches committed before it
//! stay applied.

use crate::seed::SeedError;
use vstd::prelude::*;

verus! {

/// The most writes that one transaction takes.
pub const BATCH_UPDATE_MAX_SIZE: usize = 500;

/// The number of transactions that a plan of `total` writes needs.
pub open spec fn spec_batch_count(total: nat) -> nat {
    (total + 499) / 500
}

/// The position in the plan of the first write of batch `index`.
pub open spec fn spec_batch_start(index: nat) -> nat {
    500 * index
}

/// The position in the plan behind the last write of batch `index`.
pub open spec fn spec_batch_end(total: nat, index: nat) -> nat {
    if 500 * (index + 1) < total {
        500 * (index + 1)
    } else {
        total
    }
}

/// What the caller does next.
#[derive(Debug, PartialEq, Eq, Clone, Copy)]
pub enum CommitStep {
    /// Begin a transaction and commit in it the writes of the plan from
    /// `start` up to, not including, `end`.
    Batch { start: usize, end: usize },
    /// Nothing is left: `records` writes were committed.
    Finished { records: usize },
}

/// How far the commit of a plan has come.
#[derive(Debug, PartialEq, Eq, Clone, Copy)]
pub struct CommitProgress {
    /// Number of writes of the plan.
    pub total: usize,
    /// Number of transactions committed so far.
    pub transactions: usize,
    /// Number of writes committed so far.
    pub committed: usize,
}

impl CommitProgress {
    /// The transactions committed so far are the first batches of the plan,
    /// and the writes committed are theirs.
    pub open spec fn well_formed(&self) -> bool {
        &&& self.transactions <= spec_batch_count(self.total as nat)
        &&& self.committed == if 500 * self.transactions < self.total {
            500 * self.transactions
        } else {
            self.total as int
        }
    }

    /// The step that follows this state.
    pub open spec fn spec_next(&self) -> CommitStep {
        if self.committed < self.total {
            CommitStep::Batch {
                start: self.committed,
                end: spec_batch_end(self.total as nat, self.transactions as nat) as usize,
            }
        } else {
            CommitStep::Finished { records: self.total }
        }
    }

    /// The state in which a batch was committed after this one.
    pub open spec fn spec_after_commit(&self) -> CommitProgress {
        CommitProgress {
            total: self.total,
            transactions: (self.transactions + 1) as usize,
            committed: spec_batch_end(self.total as nat, self.transactions as nat) as usize,
        }
    }

    /// The start of the commit of a plan of `total` writes.
    pub fn new(total: usize) -> (res: CommitProgress)
        ensures
            res.well_formed(),
            res == (CommitProgress { total, transactions: 0, committed: 0 }),
    {
        CommitProgress { total, transactions: 0, committed: 0 }
    }

    /// Tells whether this state is one that a commit can be in.
    pub fn is_well_formed(&self) -> (res: bool)
        ensures
            res == self.well_formed(),
    {
        let full: usize = self.total / BATCH_UPDATE_MAX_SIZE;
        let rest: usize = self.total % BATCH_UPDATE_MAX_SIZE;
        if self.transactions <= full {
            self.committed == BATCH_UPDATE_MAX_SIZE * self.transactions
        } else if rest > 0 && self.transactions - 1 == full {
            self.committed == self.total
        } else {
            false
        }
    }

    /// The next step: the batch to commit, or the end.
    pub fn next(&self) -> (res: CommitStep)
        requires
            self.well_formed(),
        ensures
            res == self.spec_next(),
            match res {
                CommitStep::Batch { start, end } => start < end <= self.total && end - start
                    <= BATCH_UPDATE_MAX_SIZE && start == spec_batch_start(
                    self.transactions as nat,
                ),
                CommitStep::Finished { records } => records == self.total && self.transactions
                    == spec_batch_count(self.total as nat),
            },
    {
        if self.committed < self.total {
            let left: usize = self.total - self.committed;
            let end: usize = if left > BATCH_UPDATE_MAX_SIZE {
                self.committed + BATCH_UPDATE_MAX_SIZE
            } else {
                self.total
            };
            CommitStep::Batch { start: self.committed, end }
        } else {
            CommitStep::Finished { records: self.total }
        }
    }

    /// Takes in how the step just made went and says what follows. After a
    /// batch that was committed the state moves on by that batch. After a
    /// failure nothing moves, and the error carries what was reported. When
    /// nothing was left to commit, the report is ignored.
    pub fn advance(&mut self, outcome: Result<(), String>) -> (res: Result<CommitStep, SeedError>)
        requires
            old(self).well_formed(),
        ensures
            final(self).well_formed(),
            match outcome {
                Ok(_) => {
                    &&& *final(self) == if old(self).committed < old(self).total {
                        old(self).spec_after_commit()
                    } else {
                        *old(self)
                    }
                    &&& res == Ok::<CommitStep, SeedError>(final(self).spec_next())
                },
                Err(reported) => {
                    &&& *final(self) == *old(self)
                    &&& res == if old(self).committed < old(self).total {
                        Err::<CommitStep, SeedError>(SeedError::FirestoreClientError(reported))
                    } else {
                        Ok::<CommitStep, SeedError>(old(self).spec_next())
                    }
                },
            },
    {
        match self.next() {
            CommitStep::Finished { records } => Ok(CommitStep::Finished { records }),
            CommitStep::Batch { start, end } => {
                match outcome {
                    Err(reported) => Err(SeedError::FirestoreClientError(reported)),
                    Ok(_) => {
                        self.transactions = self.transactions + 1;
                        self.committed = end;
                        Ok(self.next())
                    },
                }
            },
        }
    }
}

/// The batches of a plan follow one another without gap or overlap from
/// its first write to its last, and each holds at least one write and at
/// most as many as a transaction takes.
pub proof fn lemma_batches_tile(total: nat, index: nat)
    requires
        index < spec_batch_count(total),
    ensures
        spec_batch_start(index) < spec_batch_end(total, index) <= total,
        spec_batch_end(total, index) - spec_batch_start(index) <= 500,
        index + 1 < spec_batch_count(total) ==> spec_batch_end(total, index) == spec_batch_start(
            index + 1,
        ),
        index + 1 == spec_batch_count(total) ==> spec_batch_end(total, index) == total,
        spec_batch_start(0) == 0,
{
}

/// A commit is finished exactly when as many transactions were committed
/// as the plan needs, and only then are all its writes committed. Before
/// that, the writes committed are those of whole batches.
pub proof fn lemma_finished_iff_all_batches(progress: CommitProgress)
    requires
        progress.well_formed(),
    ensures
        progress.committed == progress.total <==> progress.transactions == spec_batch_count(
            progress.total as nat,
        ),
        progress.spec_next() is Finished <==> progress.transactions == spec_batch_count(
            progress.total as nat,
        ),
        progress.committed <= progress.total,
        progress.committed < progress.total ==> progress.committed == 500 * progress.transactions,
{
}

/// The state of the commit of a plan of `total` writes after `commits`
/// batches were committed.
pub open spec fn spec_progress_after(total: usize, commits: nat) -> CommitProgress
    decreases commits,
{
    if commits == 0 {
        CommitProgress { total, transactions: 0, committed: 0 }
    } else {
        spec_progress_after(total, (commits - 1) as nat).spec_after_commit()
    }
}

/// A plan is committed in as many transactions as it needs and no fewer:
/// after each committed batch the writes committed are those of the batches
/// so far, and the commit is finished exactly when the last of them is in.
pub proof fn lemma_progress_after(total: usize, commits: nat)
    requires
        commits <= spec_batch_count(total as nat),
    ensures
        spec_progress_after(total, commits).well_formed(),
        spec_progress_after(total, commits).total == total,
        spec_progress_after(total, commits).transactions == commits,
        commits == 0 ==> spec_progress_after(total, commits).committed == 0,
        commits > 0 ==> spec_progress_after(total, commits).committed == spec_batch_end(
            total as nat,
            (commits - 1) as nat,
        ),
        spec_progress_after(total, commits).spec_next() is Finished <==> commits
            == spec_batch_count(total as nat),
    decreases commits,
{
    if commits > 0 {
        lemma_progress_after(total, (commits - 1) as nat);
    }
}

} // verus!
