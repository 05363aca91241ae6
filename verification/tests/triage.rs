use petrel::actions::{ActionKind, ActionReceipt, PlacementPolicy, PriorState};
use petrel::store::error::StoreError;
use petrel::store::triage::delivery::{
    deliveries, is_waiting, outcome_column, settled, Outcome, QueuedRow,
};
use petrel::store::triage::labels::filing;
use petrel::store::triage::tags::{
    meaning, origin_after, renaming, tag_changes, tag_named, Meaning, TagName,
    WornTag,
};
use petrel::store::triage::undo::{may_undo, restore_for, Restore};
use petrel::store::triage::{
    captured, change_for, queue_state, refusal, touches, Change, Member, Place,
};

fn place(folder: i64, path: &str, role: &str, uid: Option<i64>) -> Place {
    Place {
        folder,
        path: path.into(),
        role: if role.is_empty() { None } else { Some(role.to_string()) },
        uid,
    }
}

fn member(id: i64, flags: i64, places: Vec<Place>) -> Member {
    Member {
        id,
        flags,
        snoozed_until: None,
        places,
        tags: vec![],
    }
}

fn prior(id: i64, path: Option<&str>, uid: Option<u32>) -> PriorState {
    PriorState {
        message_id: id,
        flags: 0,
        folder_ids: vec![1],
        tag_ids: vec![],
        source_path: path.map(str::to_string),
        source_uid: uid,
        source_folder: path.map(|_| 1),
        snoozed_until: None,
    }
}

#[test]
fn an_action_without_its_target_is_refused() {
    assert_eq!(
        refusal(ActionKind::Move, None, true),
        Some(StoreError::Rejected("Move needs a target folder or tag".into()))
    );
    assert_eq!(
        refusal(ActionKind::Tag, Some(3), false),
        Some(StoreError::Rejected(
            "Tag names a folder or tag this account does not have".into()
        ))
    );
    assert_eq!(refusal(ActionKind::Move, Some(3), true), None);
    assert_eq!(refusal(ActionKind::Snooze, Some(3), false), None);
    assert!(refusal(ActionKind::Snooze, None, true).is_some());
    assert_eq!(refusal(ActionKind::Star, None, true), None);
}

#[test]
fn archiving_leaves_your_own_replies_in_sent() {
    let inbox = member(1, 0, vec![place(1, "INBOX", "inbox", Some(4))]);
    let sent = member(2, 0, vec![place(2, "Sent", "sent", Some(5))]);
    let reply = member(
        3,
        0,
        vec![place(2, "Sent", "sent", Some(6)), place(1, "INBOX", "inbox", None)],
    );
    let kind = ActionKind::Archive;
    assert!(touches(kind, PlacementPolicy::Exclusive, &inbox));
    assert!(!touches(kind, PlacementPolicy::Exclusive, &sent));
    assert!(!touches(kind, PlacementPolicy::Exclusive, &reply));
    // Where folders are labels, archiving takes the inbox label off whatever
    // wears it.
    assert!(touches(kind, PlacementPolicy::Labels, &reply));
    assert!(!touches(kind, PlacementPolicy::Labels, &sent));
    assert!(touches(ActionKind::Trash, PlacementPolicy::Exclusive, &sent));
    assert!(touches(ActionKind::MarkRead, PlacementPolicy::Exclusive, &inbox));
    assert!(!touches(ActionKind::MarkUnread, PlacementPolicy::Exclusive, &inbox));
}

#[test]
fn a_folder_with_a_role_is_a_better_address_than_one_without() {
    let all = vec![member(
        7,
        0,
        vec![place(9, "Work", "", Some(2)), place(3, "Archive", "archive", Some(8))],
    )];
    let was = captured(ActionKind::Trash, PlacementPolicy::Exclusive, &all);
    assert_eq!(was[0].source_path.as_deref(), Some("Archive"));
    assert_eq!(was[0].source_uid, Some(8));
    assert_eq!(was[0].source_folder, Some(3));
}

#[test]
fn what_was_is_captured_before_it_changes() {
    let all = vec![
        member(
            7,
            4,
            vec![place(9, "Work", "", Some(2)), place(1, "INBOX", "inbox", Some(3))],
        ),
        member(8, 1, vec![place(1, "INBOX", "inbox", Some(5))]),
    ];
    let read = captured(ActionKind::MarkRead, PlacementPolicy::Exclusive, &all);
    assert_eq!(read.len(), 1);
    assert_eq!(read[0].message_id, 7);
    assert_eq!(read[0].flags, 4);
    assert_eq!(read[0].folder_ids, vec![9, 1]);
    // The inbox is the address, whichever is listed first.
    assert_eq!(read[0].source_path.as_deref(), Some("INBOX"));
    assert_eq!(read[0].source_uid, Some(3));
    assert_eq!(read[0].source_folder, Some(1));
    assert_eq!(captured(ActionKind::Trash, PlacementPolicy::Exclusive, &all).len(), 2);
}

#[test]
fn each_action_is_one_change() {
    let exclusive = PlacementPolicy::Exclusive;
    let of = |kind, target, filed, policy| change_for(kind, target, filed, policy);
    assert_eq!(
        of(ActionKind::Star, None, None, exclusive),
        Change::Flags { add: 4, remove: 0 }
    );
    assert_eq!(
        of(ActionKind::MarkUnread, None, None, exclusive),
        Change::Flags { add: 0, remove: 1 }
    );
    assert_eq!(of(ActionKind::Snooze, Some(99), None, exclusive), Change::Snooze(99));
    assert_eq!(of(ActionKind::Unsnooze, None, None, exclusive), Change::Unsnooze);
    assert_eq!(of(ActionKind::DeleteForever, None, None, exclusive), Change::Tombstone);
    assert_eq!(of(ActionKind::Tag, Some(5), None, exclusive), Change::Tag(5));
    assert_eq!(of(ActionKind::Untag, Some(5), None, exclusive), Change::Untag(5));
    assert_eq!(of(ActionKind::Move, Some(6), None, exclusive), Change::Refile(6));
    assert_eq!(of(ActionKind::Archive, None, Some(3), exclusive), Change::Refile(3));
    assert_eq!(
        of(ActionKind::Archive, None, Some(3), PlacementPolicy::Labels),
        Change::Unlabel(3)
    );
    assert_eq!(
        of(ActionKind::Trash, None, Some(3), PlacementPolicy::Labels),
        Change::Refile(3)
    );
}

#[test]
fn undoing_puts_back_the_part_that_changed() {
    let mut p = prior(1, Some("INBOX"), Some(8));
    p.flags = 5;
    p.folder_ids = vec![1, 2, 3];
    p.tag_ids = vec![7];
    p.snoozed_until = Some(12);
    let all = vec![1, 3];
    assert_eq!(
        restore_for(ActionKind::MarkRead, &p, &all),
        Restore::Flag { bit: 1, flags: 5 }
    );
    assert_eq!(
        restore_for(ActionKind::Unstar, &p, &all),
        Restore::Flag { bit: 4, flags: 5 }
    );
    assert_eq!(restore_for(ActionKind::Tag, &p, &all), Restore::Tags(vec![7]));
    assert_eq!(restore_for(ActionKind::Snooze, &p, &all), Restore::Snooze(Some(12)));
    assert_eq!(
        restore_for(ActionKind::Archive, &p, &all),
        Restore::Places(vec![(1, Some(8)), (3, None)])
    );
    // Nowhere to go back to: it stays where it is.
    assert_eq!(restore_for(ActionKind::Archive, &p, &vec![]), Restore::Nothing);
}

#[test]
fn only_what_has_not_left_can_be_undone() {
    assert!(may_undo("queued", ActionKind::Archive));
    assert!(may_undo("local", ActionKind::Snooze));
    assert!(!may_undo("sent", ActionKind::Archive));
    assert!(!may_undo("undone", ActionKind::Archive));
    assert!(!may_undo("queued", ActionKind::DeleteForever));
    assert_eq!(queue_state(ActionKind::Snooze), "local");
    assert_eq!(queue_state(ActionKind::Archive), "queued");
}

fn queued(action: i64, kind: ActionKind, message: i64, uid: Option<u32>, path: &str) -> QueuedRow {
    QueuedRow {
        action_id: action,
        kind: Some(kind),
        message_id: message,
        uid,
        folder_path: path.into(),
        readable: true,
        prior: None,
        held: vec![path.to_string()],
        prior_paths: vec![],
    }
}

#[test]
fn a_move_is_addressed_where_it_took_the_message_from() {
    // On a provider with labels the message is still in All Mail; the archive
    // is about the inbox.
    let mut row = queued(1, ActionKind::Archive, 5, Some(77), "All Mail");
    row.prior = Some(prior(5, Some("INBOX"), Some(3)));
    let mut again = queued(1, ActionKind::Archive, 5, Some(78), "Other");
    again.prior = row.prior.clone();
    let out = deliveries(&vec![row, again]);
    assert_eq!(out.len(), 1);
    assert_eq!(out[0].row, 0);
    assert_eq!(out[0].uid, Some(3));
    assert_eq!(out[0].folder_path, "INBOX");
    assert!(out[0].candidate_paths.is_empty());
}

#[test]
fn a_number_that_was_taken_away_stays_away() {
    // The placement is still there without its number: the number captured
    // when the action was queued is no good either.
    let mut row = queued(1, ActionKind::MarkRead, 5, None, "INBOX");
    row.prior = Some(prior(5, Some("INBOX"), Some(3)));
    row.prior_paths = vec!["INBOX".to_string()];
    let out = deliveries(&vec![row]);
    assert_eq!(out[0].uid, None);
    assert_eq!(out[0].candidate_paths, vec!["INBOX"]);
}

#[test]
fn the_queue_stays_in_order() {
    let rows = vec![
        queued(1, ActionKind::Star, 5, Some(1), "INBOX"),
        queued(1, ActionKind::Star, 6, Some(2), "INBOX"),
        queued(2, ActionKind::Unstar, 5, Some(1), "INBOX"),
    ];
    let order: Vec<usize> = deliveries(&rows).iter().map(|d| d.row).collect();
    assert_eq!(order, vec![0, 1, 2]);
}

#[test]
fn an_action_settles_with_its_last_message() {
    assert_eq!(settled(&vec![Outcome::Delivered, Outcome::Open]), None);
    assert_eq!(settled(&vec![Outcome::Delivered, Outcome::Dropped]), Some("sent"));
    assert_eq!(settled(&vec![Outcome::Dropped, Outcome::Dropped]), Some("undeliverable"));
    assert!(is_waiting(Some("queued")));
    assert!(!is_waiting(Some("undone")));
    assert!(!is_waiting(None));
    assert_eq!(outcome_column(true), "delivered_ms");
    assert_eq!(outcome_column(false), "dropped_ms");
}

#[test]
fn labels_say_where_a_message_is() {
    let labels = |all: &[&str]| all.iter().map(|l| l.to_string()).collect::<Vec<_>>();
    let tags = labels(&["Urgent", "Inbox"]);
    let f = filing(&labels(&["\"\\\\Inbox\"", "\\Starred", "\"Urgent\""]), 1, 2, Some(9), &tags);
    assert_eq!((f.into, f.out_of, f.uid), (1, 2, Some(9)));
    assert!(f.starred);
    // A label of the system is never one of the tags.
    assert_eq!(f.carried, vec![true, false]);
    // A label that merely ends in the word is another label.
    let g = filing(&labels(&["Old Inbox", "Not Starred"]), 1, 2, Some(9), &tags);
    assert_eq!((g.into, g.out_of, g.uid), (2, 1, None));
    assert!(!g.starred);
    assert_eq!(g.carried, vec![false, false]);
}

fn tag(id: i64, name: &str) -> TagName {
    TagName {
        name: name.into(),
        id,
    }
}

#[test]
fn a_tag_comes_home_under_its_own_name() {
    let tags = vec![tag(1, "Waiting on"), tag(2, "Urgent")];
    assert_eq!(meaning(&tags, "Waiting_on"), Meaning::Tag(1));
    assert_eq!(meaning(&tags, "$Forwarded"), Meaning::Machine);
    assert_eq!(meaning(&tags, "Receipts"), Meaning::New);
}

#[test]
fn tags_follow_the_keywords() {
    let worn = |id, name: &str, travelled| WornTag {
        name: name.into(),
        id,
        travelled,
    };
    let current = vec![
        worn(1, "Waiting on", true),
        worn(2, "Urgent", true),
        // Made here and never sent anywhere: not the server's to remove.
        worn(4, "Private", false),
    ];
    let c = tag_changes(&current, &vec![2, 3], &vec!["Urgent".into(), "Receipts".into()]);
    assert_eq!(c.put_on, vec![3]);
    assert_eq!(c.taken_off, vec![1]);
}

#[test]
fn a_tag_somebody_used_is_theirs() {
    assert_eq!(origin_after("server", "user"), "user");
    assert_eq!(origin_after("user", "server"), "user");
    assert_eq!(origin_after("server", "server"), "server");
    let tags = vec![tag(1, "Urgent"), tag(2, "Later")];
    assert_eq!(tag_named(&tags, "URGENT"), Some(1));
    assert_eq!(tag_named(&tags, "other"), None);
    assert_eq!(renaming(&tags, 1, " Now "), Ok("Now".to_string()));
    assert_eq!(renaming(&tags, 1, "urgent"), Ok("urgent".to_string()));
    assert_eq!(
        renaming(&tags, 1, "later"),
        Err(StoreError::Rejected("a tag called later already exists".into()))
    );
    assert_eq!(
        renaming(&tags, 1, "  "),
        Err(StoreError::Rejected("a tag needs a name".into()))
    );
}

#[test]
fn a_receipt_says_what_was_done() {
    let r = ActionReceipt::new(4, ActionKind::Archive, 2);
    assert_eq!(r.action_id, 4);
    assert_eq!(r.message_count, 2);
    assert_eq!(r.description, "Archived");
    assert_eq!(ActionKind::Trash.destination_role(), Some("trash"));
    assert_eq!(ActionKind::Star.destination_role(), None);
    assert_eq!(PlacementPolicy::of_account_kind("gmail"), PlacementPolicy::Labels);
    assert_eq!(PlacementPolicy::of_account_kind("imap"), PlacementPolicy::Exclusive);
}
