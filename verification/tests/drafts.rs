use petrel::outbox::SendState;
use petrel::store::drafts::{
    counts_as_attempt, draft_account, draft_is_gone, draft_row, due_sends, next_due_ms,
    recipient_line, recipients_in, recovered, state_name, Outgoing,
};
use petrel::store::error::StoreError;

#[test]
fn a_comma_parts_recipients_and_so_does_a_semicolon() {
    assert_eq!(recipients_in("a@b.c, d@e.f;g@h.i"), vec!["a@b.c", "d@e.f", "g@h.i"]);
    assert_eq!(recipients_in(" ,; a@b.c ;, "), vec!["a@b.c"]);
    assert!(recipients_in("").is_empty());
    assert!(recipients_in(" , ").is_empty());
}

#[test]
fn a_draft_saved_again_goes_to_the_same_people() {
    for line in ["a@b.c;d@e.f", "  Ann Lee <a@b.c> ,, d@e.f", "", "one"] {
        let once = recipients_in(line);
        assert_eq!(recipients_in(&recipient_line(&once)), once);
    }
    assert_eq!(recipient_line(&vec!["a".to_string(), "b".to_string()]), "a, b");
}

#[test]
fn a_draft_is_a_message_like_any_other() {
    let r = draft_row("a@b.c; d@e.f", "g@h.i", &"é".repeat(300));
    assert_eq!(r.snippet, "é".repeat(200));
    assert_eq!(r.flags, 9);
    assert_eq!(r.addrs, "a@b.c; d@e.f g@h.i");
    assert_eq!(r.to, vec!["a@b.c", "d@e.f"]);
    assert_eq!(r.cc, vec!["g@h.i"]);
}

#[test]
fn a_draft_stays_in_the_account_it_was_written_in() {
    assert_eq!(draft_account(None, None, 3), Ok(3));
    assert_eq!(draft_account(Some(8), Some(2), 3), Ok(2));
    let gone = StoreError::Rejected("that draft no longer exists".into());
    assert_eq!(draft_account(Some(8), None, 3), Err(gone.clone()));
    assert_eq!(draft_is_gone(), gone);
}

fn waiting(id: i64, after: i64, next: Option<i64>, state: Option<&str>) -> Outgoing {
    Outgoing {
        id,
        send_after_ms: after,
        send_next_ms: next,
        state: state.map(str::to_string),
    }
}

#[test]
fn a_message_goes_when_its_turn_comes() {
    let all = vec![
        waiting(1, 100, None, None),
        waiting(2, 100, Some(200), Some("RetryQueued")),
        waiting(3, 50, None, Some("NeedsAttention")),
        waiting(4, 150, None, Some("UndoWindow")),
        waiting(5, 10, None, Some("Transmitting")),
        waiting(6, 10, None, Some("FailedPermanent")),
        waiting(7, 10, None, Some("Sent")),
    ];
    assert_eq!(next_due_ms(&all), Some(100));
    assert!(due_sends(&all, 99).is_empty());
    assert_eq!(due_sends(&all, 100), vec![1]);
    assert_eq!(due_sends(&all, 150), vec![1, 4]);
    assert_eq!(due_sends(&all, 200), vec![1, 2, 4]);
    assert_eq!(next_due_ms(&vec![waiting(3, 50, None, Some("NeedsAttention"))]), None);
    assert_eq!(next_due_ms(&vec![]), None);
}

#[test]
fn a_state_is_written_by_its_name() {
    for state in [
        SendState::UndoWindow,
        SendState::Transmitting,
        SendState::Sent,
        SendState::RetryQueued,
        SendState::FailedPermanent,
        SendState::NeedsAttention,
    ] {
        assert_eq!(state_name(state), format!("{state:?}"));
        let held = matches!(state, SendState::UndoWindow | SendState::Transmitting);
        assert_eq!(counts_as_attempt(state), !held);
    }
    assert_eq!(recovered(SendState::Transmitting), SendState::NeedsAttention);
    assert_eq!(recovered(SendState::Sent), SendState::Sent);
}
