//! The outbox, and the rule for a send whose outcome is not known.
//!
//! No mail transport offers an idempotent send: a server can accept a message
//! and then fail to say so. Retrying may duplicate it, not retrying may lose
//! it. So an uncertain outcome is never retried and never dropped in silence:
//! it is settled by looking at the server, or shown to a person.

use vstd::prelude::*;

verus! {

/// What a send attempt told us, "we do not know" being one of the answers.
#[derive(Debug, Clone, Copy, PartialEq, Eq, Structural)]
pub enum AttemptOutcome {
    /// The transport confirmed acceptance.
    Accepted,
    /// It failed before the message could have been committed: connection
    /// refused, TLS failure, sign-in rejected, recipient refused.
    FailedBeforeCommit,
    /// It failed after the message was sent in full, with no acknowledgement
    /// read back. The dangerous one.
    UnknownAfterTransmit,
    /// The server refused for good. No retry will help.
    RejectedPermanently,
}

/// Whether the message turned up among the account's sent mail.
#[derive(Debug, Clone, Copy, PartialEq, Eq, Structural)]
pub enum ServerEvidence {
    /// Found by its Message-ID: it was delivered.
    Found,
    /// Searched for, and definitely not there.
    Absent,
    /// Could not be searched for.
    Indeterminate,
}

/// Where an outbox row stands.
#[derive(Debug, Clone, Copy, PartialEq, Eq, Structural)]
pub enum SendState {
    /// Waiting out the undo window; nothing has hit the wire.
    UndoWindow,
    /// In flight.
    Transmitting,
    /// Done.
    Sent,
    /// Retry is safe and automatic.
    RetryQueued,
    /// Failed for good; somebody must edit or discard it.
    FailedPermanent,
    /// Needs a person: whether it was sent cannot be proved. Never retried by
    /// itself, never discarded.
    NeedsAttention,
}

/// The server is known not to hold the message: it never got that far, or it
/// may have and was looked for and is not there.
pub open spec fn is_known_not_sent(outcome: AttemptOutcome, evidence: ServerEvidence) -> bool {
    ||| outcome == AttemptOutcome::FailedBeforeCommit
    ||| outcome == AttemptOutcome::UnknownAfterTransmit && evidence == ServerEvidence::Absent
}

/// The message is known to have been delivered.
pub open spec fn is_known_sent(outcome: AttemptOutcome, evidence: ServerEvidence) -> bool {
    ||| outcome == AttemptOutcome::Accepted
    ||| outcome == AttemptOutcome::UnknownAfterTransmit && evidence == ServerEvidence::Found
}

/// Where an attempt leaves a message.
pub open spec fn settled(outcome: AttemptOutcome, evidence: ServerEvidence) -> SendState {
    if is_known_sent(outcome, evidence) {
        SendState::Sent
    } else if is_known_not_sent(outcome, evidence) {
        SendState::RetryQueued
    } else if outcome == AttemptOutcome::RejectedPermanently {
        SendState::FailedPermanent
    } else {
        SendState::NeedsAttention
    }
}

pub open spec fn is_retried(state: SendState) -> bool {
    state == SendState::RetryQueued
}

/// The rule. What the server shows is only consulted when the transport left
/// it open: uncertainty is settled by looking, not by guessing.
pub fn reconcile(outcome: AttemptOutcome, evidence: ServerEvidence) -> (state: SendState)
    ensures
        state == settled(outcome, evidence),
{
    match outcome {
        AttemptOutcome::Accepted => SendState::Sent,
        AttemptOutcome::RejectedPermanently => SendState::FailedPermanent,
        // Nothing was committed, so retrying cannot duplicate.
        AttemptOutcome::FailedBeforeCommit => SendState::RetryQueued,
        AttemptOutcome::UnknownAfterTransmit => match evidence {
            ServerEvidence::Found => SendState::Sent,
            ServerEvidence::Absent => SendState::RetryQueued,
            ServerEvidence::Indeterminate => SendState::NeedsAttention,
        },
    }
}

/// Whether a message in this state may be sent again without asking anyone.
pub fn may_retry_automatically(state: SendState) -> (r: bool)
    ensures
        r == is_retried(state),
{
    matches!(state, SendState::RetryQueued)
}

/// A message is sent again by itself only where a duplicate is impossible:
/// the server is known not to have it.
pub proof fn a_retry_never_duplicates(outcome: AttemptOutcome, evidence: ServerEvidence)
    ensures
        is_retried(settled(outcome, evidence)) ==> is_known_not_sent(outcome, evidence),
        is_known_sent(outcome, evidence) ==> !is_retried(settled(outcome, evidence)),
{
}

/// No attempt leaves a message forgotten: it was sent, will be sent again, or
/// is shown to somebody, and it counts as sent only where it is known to be.
pub proof fn nothing_is_forgotten(outcome: AttemptOutcome, evidence: ServerEvidence)
    ensures
        settled(outcome, evidence) == SendState::Sent || settled(outcome, evidence)
            == SendState::RetryQueued || settled(outcome, evidence) == SendState::FailedPermanent
            || settled(outcome, evidence) == SendState::NeedsAttention,
        settled(outcome, evidence) == SendState::Sent <==> is_known_sent(outcome, evidence),
{
}

/// Where the transport was sure, looking at the server changes nothing.
pub proof fn certainty_needs_no_evidence(
    outcome: AttemptOutcome,
    one: ServerEvidence,
    other: ServerEvidence,
)
    requires
        outcome != AttemptOutcome::UnknownAfterTransmit,
    ensures
        settled(outcome, one) == settled(outcome, other),
{
}

/// What each answer of the transport comes to. Only a message that was sent
/// in full, and was looked for and not found, is sent again after that.
pub proof fn an_attempt_comes_to_one_thing(outcome: AttemptOutcome, evidence: ServerEvidence)
    ensures
        outcome == AttemptOutcome::Accepted ==> settled(outcome, evidence) == SendState::Sent,
        outcome == AttemptOutcome::FailedBeforeCommit ==> is_retried(settled(outcome, evidence)),
        outcome == AttemptOutcome::RejectedPermanently ==> settled(outcome, evidence)
            == SendState::FailedPermanent,
        outcome == AttemptOutcome::UnknownAfterTransmit ==> {
            &&& is_retried(settled(outcome, evidence)) <==> evidence == ServerEvidence::Absent
            &&& settled(outcome, evidence) == SendState::Sent <==> evidence == ServerEvidence::Found
            &&& settled(outcome, evidence) == SendState::NeedsAttention <==> evidence
                == ServerEvidence::Indeterminate
        },
        forall|state: SendState| #[trigger] is_retried(state) <==> state == SendState::RetryQueued,
{
}

} // verus!
