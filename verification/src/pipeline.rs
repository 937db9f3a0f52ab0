use vstd::prelude::*;

verus! {

/// The failure taxonomy of the pipeline.
#[derive(Clone, Copy, Debug, PartialEq, Eq, Structural)]
pub enum PipelineError {
    /// The version-control tool could not be invoked.
    RepositoryAccess,
    /// The working tree is not inside a tracked repository.
    NotARepository,
    /// The credential for the completion service is missing.
    Authentication,
    /// The completion service could not be reached.
    RemoteUnavailable,
    /// The response held no well-formed commit proposal.
    MalformedResponse,
    /// The user declined the confirmation prompt.
    UserDeclined,
    /// The commit mutation itself failed.
    CommitMutation,
}

impl PipelineError {
    /// The single-line diagnostic that each fatal condition prints.
    pub fn message(&self) -> (r: &'static str)
        ensures
            *self == PipelineError::RepositoryAccess ==> r@ == "Failed to invoke git."@,
            *self == PipelineError::NotARepository ==> r@
                == "Not in a git repo; run from the root or `git init`."@,
            *self == PipelineError::Authentication ==> r@
                == "Please set the OPENAI_API_KEY environment variable."@,
            *self == PipelineError::RemoteUnavailable ==> r@
                == "The completion service could not be reached."@,
            *self == PipelineError::MalformedResponse ==> r@
                == "The response held no well-formed commit proposal."@,
            *self == PipelineError::UserDeclined ==> r@ == "Aborted."@,
            *self == PipelineError::CommitMutation ==> r@ == "The commit operation failed."@,
    {
        match self {
            PipelineError::RepositoryAccess => "Failed to invoke git.",
            PipelineError::NotARepository => "Not in a git repo; run from the root or `git init`.",
            PipelineError::Authentication => "Please set the OPENAI_API_KEY environment variable.",
            PipelineError::RemoteUnavailable => "The completion service could not be reached.",
            PipelineError::MalformedResponse => "The response held no well-formed commit proposal.",
            PipelineError::UserDeclined => "Aborted.",
            PipelineError::CommitMutation => "The commit operation failed.",
        }
    }
}

/// Decides the run's fate before any network call: a missing credential or a
/// working tree outside a repository is fatal, in that order; an empty change
/// set is only a warning (`Ok(true)`), and the pipeline proceeds.
pub fn preflight(api_key_present: bool, inside_repository: bool, diff_empty: bool) -> (r: Result<
    bool,
    PipelineError,
>)
    ensures
        r == if !api_key_present {
            Err::<bool, PipelineError>(PipelineError::Authentication)
        } else if !inside_repository {
            Err::<bool, PipelineError>(PipelineError::NotARepository)
        } else {
            Ok::<bool, PipelineError>(diff_empty)
        },
{
    if !api_key_present {
        Err(PipelineError::Authentication)
    } else if !inside_repository {
        Err(PipelineError::NotARepository)
    } else {
        Ok(diff_empty)
    }
}

/// The mode flags that drive delivery.
#[derive(Clone, Copy, Debug, PartialEq, Eq, Structural)]
pub struct DeliveryFlags {
    pub dry_run: bool,
    pub review: bool,
    pub force: bool,
}

/// The delivery controller's states.
#[derive(Clone, Copy, Debug, PartialEq, Eq, Structural)]
pub enum DeliveryState {
    /// A rendered proposal is in hand; nothing has been done with it.
    Proposed,
    /// The confirmation prompt is outstanding.
    AwaitingConfirmation,
    /// Dry-run: the message was emitted; terminal, no mutation.
    Printed,
    /// The commit operation is running.
    Committing,
    /// The commit operation succeeded; terminal.
    Committed,
    /// The user declined; terminal, no mutation.
    Aborted,
    /// The commit operation failed; terminal, not retried.
    Failed,
}

/// What the surrounding program must perform after a step.
#[derive(Clone, Copy, Debug, PartialEq, Eq, Structural)]
pub enum DeliveryAction {
    /// Print the rendered message.
    EmitMessage,
    /// Ask the user for yes/no confirmation.
    AskConfirmation,
    /// Run the commit operation (the sole repository mutation).
    RunCommit,
    /// Report that the user declined, with a non-zero outcome.
    ReportDecline,
    /// Report that the commit operation failed.
    ReportFailure,
    /// Nothing remains to be done.
    Finish,
}

/// The events the surrounding program reports back to the controller.
#[derive(Clone, Copy, Debug, PartialEq, Eq, Structural)]
pub enum DeliveryEvent {
    /// Delivery begins on a fresh proposal.
    Begin,
    /// The confirmation prompt was answered (`true` is yes).
    Answered(bool),
    /// The commit operation finished (`true` is success).
    MutationDone(bool),
}

/// A state from which no further step is taken.
pub open spec fn delivery_terminal(s: DeliveryState) -> bool {
    s == DeliveryState::Printed || s == DeliveryState::Committed || s == DeliveryState::Aborted
        || s == DeliveryState::Failed
}

/// The event that each non-terminal state awaits.
pub open spec fn delivery_event_fits(s: DeliveryState, e: DeliveryEvent) -> bool {
    match s {
        DeliveryState::Proposed => e == DeliveryEvent::Begin,
        DeliveryState::AwaitingConfirmation => e matches DeliveryEvent::Answered(_),
        DeliveryState::Committing => e matches DeliveryEvent::MutationDone(_),
        _ => false,
    }
}

/// The delivery controller's transition relation: dry-run prints and stops;
/// otherwise confirmation is asked unless forced; a declined confirmation
/// aborts with no mutation; a failed mutation is terminal and not retried.
pub open spec fn spec_delivery_step(s: DeliveryState, f: DeliveryFlags, e: DeliveryEvent) -> (
    DeliveryState,
    DeliveryAction,
) {
    match (s, e) {
        (DeliveryState::Proposed, DeliveryEvent::Begin) => if f.dry_run {
            (DeliveryState::Printed, DeliveryAction::EmitMessage)
        } else if f.force {
            (DeliveryState::Committing, DeliveryAction::RunCommit)
        } else {
            (DeliveryState::AwaitingConfirmation, DeliveryAction::AskConfirmation)
        },
        (DeliveryState::AwaitingConfirmation, DeliveryEvent::Answered(yes)) => if yes {
            (DeliveryState::Committing, DeliveryAction::RunCommit)
        } else {
            (DeliveryState::Aborted, DeliveryAction::ReportDecline)
        },
        (DeliveryState::Committing, DeliveryEvent::MutationDone(ok)) => if ok {
            (DeliveryState::Committed, DeliveryAction::Finish)
        } else {
            (DeliveryState::Failed, DeliveryAction::ReportFailure)
        },
        _ => (s, DeliveryAction::Finish),
    }
}

/// One step of the delivery controller, exactly the transition relation.
pub fn delivery_step(state: DeliveryState, flags: &DeliveryFlags, event: DeliveryEvent) -> (r: (
    DeliveryState,
    DeliveryAction,
))
    requires
        delivery_event_fits(state, event),
    ensures
        r == spec_delivery_step(state, *flags, event),
{
    match (state, event) {
        (DeliveryState::Proposed, DeliveryEvent::Begin) => {
            if flags.dry_run {
                (DeliveryState::Printed, DeliveryAction::EmitMessage)
            } else if flags.force {
                (DeliveryState::Committing, DeliveryAction::RunCommit)
            } else {
                (DeliveryState::AwaitingConfirmation, DeliveryAction::AskConfirmation)
            }
        },
        (DeliveryState::AwaitingConfirmation, DeliveryEvent::Answered(yes)) => {
            if yes {
                (DeliveryState::Committing, DeliveryAction::RunCommit)
            } else {
                (DeliveryState::Aborted, DeliveryAction::ReportDecline)
            }
        },
        (DeliveryState::Committing, DeliveryEvent::MutationDone(ok)) => {
            if ok {
                (DeliveryState::Committed, DeliveryAction::Finish)
            } else {
                (DeliveryState::Failed, DeliveryAction::ReportFailure)
            }
        },
        _ => (state, DeliveryAction::Finish),
    }
}

/// The commit mutation is requested exactly when the flags force it from a
/// fresh proposal or the user confirmed; in particular never under dry-run
/// from a fresh proposal, and never after a declined confirmation.
pub proof fn lemma_commit_only_when_authorized(
    s: DeliveryState,
    f: DeliveryFlags,
    e: DeliveryEvent,
)
    requires
        delivery_event_fits(s, e),
    ensures
        spec_delivery_step(s, f, e).1 == DeliveryAction::RunCommit <==> ((s
            == DeliveryState::Proposed && e == DeliveryEvent::Begin && !f.dry_run && f.force) || (s
            == DeliveryState::AwaitingConfirmation && e == DeliveryEvent::Answered(true))),
{
}

/// Dry-run prints and stops: the step from a fresh proposal emits the message,
/// reaches the terminal `Printed` state, and performs no mutation.
pub proof fn lemma_dry_run_prints_only(f: DeliveryFlags)
    requires
        f.dry_run,
    ensures
        spec_delivery_step(DeliveryState::Proposed, f, DeliveryEvent::Begin) == (
            DeliveryState::Printed,
            DeliveryAction::EmitMessage,
        ),
        delivery_terminal(spec_delivery_step(DeliveryState::Proposed, f, DeliveryEvent::Begin).0),
{
}

/// A declined confirmation aborts: without force the fresh proposal first
/// asks, and a "no" answer reaches the terminal `Aborted` state with no
/// mutation requested at either step.
pub proof fn lemma_decline_aborts(f: DeliveryFlags)
    requires
        !f.dry_run,
        !f.force,
    ensures
        spec_delivery_step(DeliveryState::Proposed, f, DeliveryEvent::Begin) == (
            DeliveryState::AwaitingConfirmation,
            DeliveryAction::AskConfirmation,
        ),
        spec_delivery_step(DeliveryState::AwaitingConfirmation, f, DeliveryEvent::Answered(false))
            == (DeliveryState::Aborted, DeliveryAction::ReportDecline),
        delivery_terminal(DeliveryState::Aborted),
{
}

} // verus!
