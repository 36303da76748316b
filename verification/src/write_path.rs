use vstd::prelude::*;

verus! {

/// The states of one write-path transaction. Validation happens before the
/// transaction opens; the question row is inserted before the choice rows,
/// because the choice rows need the generated question id; terminal states
/// are `Rejected`, `RolledBack` and `Committed`, and there are no retries.
pub enum WriteState {
    Validating,
    InsertingQuestion,
    InsertingChoices { question_id: i64 },
    Committing { question_id: i64, choice_ids: Vec<i64> },
    Rejected,
    RolledBack,
    Committed { question_id: i64, choice_ids: Vec<i64> },
}

/// What happened during the step the driver just ran.
pub enum WriteEvent {
    ValidationPassed,
    ValidationFailed,
    QuestionInserted(i64),
    ChoicesInserted(Vec<i64>),
    StatementFailed,
    CommitSucceeded,
    CommitFailed,
}

/// What the driver of the transaction must do next.
pub enum WriteAction {
    InsertQuestion,
    InsertChoices,
    Commit,
    Rollback,
    Stop,
}

impl WriteState {
    /// Whether the write is over, one way or the other.
    pub open spec fn spec_terminal(&self) -> bool {
        match self {
            WriteState::Rejected => true,
            WriteState::RolledBack => true,
            WriteState::Committed { .. } => true,
            _ => false,
        }
    }
}

/// The transition function of the write path. A terminal state absorbs every
/// further event; an event that does not belong to the current state - like
/// any failure after the transaction opened - forces a rollback, so the
/// transaction is never left in an ambiguous state.
pub open spec fn spec_write_step(s: WriteState, e: WriteEvent) -> (WriteState, WriteAction) {
    if s.spec_terminal() {
        (s, WriteAction::Stop)
    } else {
        match (s, e) {
            (WriteState::Validating, WriteEvent::ValidationPassed) => (
                WriteState::InsertingQuestion,
                WriteAction::InsertQuestion,
            ),
            (WriteState::Validating, WriteEvent::ValidationFailed) => (
                WriteState::Rejected,
                WriteAction::Stop,
            ),
            (WriteState::InsertingQuestion, WriteEvent::QuestionInserted(id)) => (
                WriteState::InsertingChoices { question_id: id },
                WriteAction::InsertChoices,
            ),
            (WriteState::InsertingChoices { question_id }, WriteEvent::ChoicesInserted(ids)) => (
                WriteState::Committing { question_id, choice_ids: ids },
                WriteAction::Commit,
            ),
            (WriteState::Committing { question_id, choice_ids }, WriteEvent::CommitSucceeded) => (
                WriteState::Committed { question_id, choice_ids },
                WriteAction::Stop,
            ),
            _ => (WriteState::RolledBack, WriteAction::Rollback),
        }
    }
}

/// Advances the write path by one step.
pub fn write_step(state: WriteState, event: WriteEvent) -> (r: (WriteState, WriteAction))
    ensures
        r == spec_write_step(state, event),
{
    if matches!(state, WriteState::Rejected) || matches!(state, WriteState::RolledBack) || matches!(
        state,
        WriteState::Committed { .. },
    ) {
        return (state, WriteAction::Stop);
    }
    match (state, event) {
        (WriteState::Validating, WriteEvent::ValidationPassed) => (
            WriteState::InsertingQuestion,
            WriteAction::InsertQuestion,
        ),
        (WriteState::Validating, WriteEvent::ValidationFailed) => (
            WriteState::Rejected,
            WriteAction::Stop,
        ),
        (WriteState::InsertingQuestion, WriteEvent::QuestionInserted(id)) => (
            WriteState::InsertingChoices { question_id: id },
            WriteAction::InsertChoices,
        ),
        (WriteState::InsertingChoices { question_id }, WriteEvent::ChoicesInserted(ids)) => (
            WriteState::Committing { question_id, choice_ids: ids },
            WriteAction::Commit,
        ),
        (WriteState::Committing { question_id, choice_ids }, WriteEvent::CommitSucceeded) => (
            WriteState::Committed { question_id, choice_ids },
            WriteAction::Stop,
        ),
        (_, _) => (WriteState::RolledBack, WriteAction::Rollback),
    }
}

/// Every failure of a statement or of the commit, in any live state past
/// validation, rolls the transaction back; the machine reaches `Committed`
/// only by a commit that succeeded, and `Rejected` only by a validation
/// failure - so a rejected candidate never opened the transaction at all.
pub proof fn lemma_failures_roll_back(s: WriteState, e: WriteEvent)
    ensures
        !s.spec_terminal() && (e matches WriteEvent::StatementFailed || e
            matches WriteEvent::CommitFailed) ==> (spec_write_step(s, e).0 is RolledBack
            && spec_write_step(s, e).1 is Rollback),
        spec_write_step(s, e).0 is Committed && !s.spec_terminal() ==> (s is Committing && e
            is CommitSucceeded),
        spec_write_step(s, e).0 is Rejected && !s.spec_terminal() ==> (s is Validating && e
            is ValidationFailed),
{
}

} // verus!
