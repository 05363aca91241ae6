use petrel::outbox::{may_retry_automatically, reconcile, AttemptOutcome, SendState, ServerEvidence};

#[test]
fn accepted_is_sent() {
    assert_eq!(
        reconcile(AttemptOutcome::Accepted, ServerEvidence::Indeterminate),
        SendState::Sent
    );
}

#[test]
fn pre_commit_failures_retry_safely() {
    // Nothing reached the server, so an automatic retry cannot duplicate.
    let state = reconcile(AttemptOutcome::FailedBeforeCommit, ServerEvidence::Absent);
    assert_eq!(state, SendState::RetryQueued);
    assert!(may_retry_automatically(state));
}

#[test]
fn ambiguous_but_found_on_server_is_sent_not_resent() {
    // The duplicate-send bug in one assertion: the transport said "error",
    // the server says "I have it". We must not send it again.
    let state = reconcile(AttemptOutcome::UnknownAfterTransmit, ServerEvidence::Found);
    assert_eq!(state, SendState::Sent);
    assert!(!may_retry_automatically(state));
}

#[test]
fn ambiguous_and_provably_absent_retries() {
    let state = reconcile(AttemptOutcome::UnknownAfterTransmit, ServerEvidence::Absent);
    assert_eq!(state, SendState::RetryQueued);
    assert!(may_retry_automatically(state));
}

#[test]
fn ambiguous_and_unverifiable_asks_the_user() {
    // The silent-loss bug in one assertion: we cannot prove either way, so
    // we neither resend nor discard — we surface it.
    let state = reconcile(
        AttemptOutcome::UnknownAfterTransmit,
        ServerEvidence::Indeterminate,
    );
    assert_eq!(state, SendState::NeedsAttention);
    assert!(!may_retry_automatically(state));
}

#[test]
fn nothing_is_ever_silently_dropped_or_silently_resent() {
    for outcome in [
        AttemptOutcome::Accepted,
        AttemptOutcome::FailedBeforeCommit,
        AttemptOutcome::UnknownAfterTransmit,
        AttemptOutcome::RejectedPermanently,
    ] {
        for evidence in [ServerEvidence::Found, ServerEvidence::Absent, ServerEvidence::Indeterminate] {
            let state = reconcile(outcome, evidence);
            // Automatic retry is permitted only where duplication is
            // impossible: we know the server does not have the message.
            if may_retry_automatically(state) {
                assert!(
                    outcome == AttemptOutcome::FailedBeforeCommit
                        || (outcome == AttemptOutcome::UnknownAfterTransmit && evidence == ServerEvidence::Absent),
                    "auto-retry allowed for {outcome:?}/{evidence:?} — could duplicate"
                );
            }
            // And no path silently forgets a message.
            assert!(matches!(
                state,
                SendState::Sent
                    | SendState::RetryQueued
                    | SendState::FailedPermanent
                    | SendState::NeedsAttention
            ));
        }
    }
}
