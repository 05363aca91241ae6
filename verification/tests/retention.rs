use petrel::retention::{is_purgeable, RetentionMode, MS_PER_DAY};

#[test]
fn mirror_removes_archive_does_not() {
    assert!(RetentionMode::Mirror.removes_on_server_delete());
    assert!(!RetentionMode::LocalArchive.removes_on_server_delete());
    assert_eq!(RetentionMode::from_flag(false), RetentionMode::Mirror);
    assert_eq!(RetentionMode::from_flag(true), RetentionMode::LocalArchive);
}

#[test]
fn grace_period_boundary() {
    let deleted = 1_000_000_000_000;
    assert!(
        !is_purgeable(deleted, deleted, 30),
        "not purgeable immediately"
    );
    assert!(
        !is_purgeable(deleted, deleted + 29 * MS_PER_DAY, 30),
        "still recoverable inside the window"
    );
    assert!(
        is_purgeable(deleted, deleted + 30 * MS_PER_DAY, 30),
        "purgeable once the window closes"
    );
}

#[test]
fn a_backwards_clock_cannot_purge_early() {
    // Clock skew must never shorten the grace period — saturating_sub keeps
    // "deleted in the future" from reading as "long past due".
    let deleted = 2_000_000_000_000;
    let now = deleted - 60 * MS_PER_DAY;
    assert!(!is_purgeable(deleted, now, 30));
}

#[test]
fn both_modes_state_themselves() {
    for mode in [RetentionMode::Mirror, RetentionMode::LocalArchive] {
        let text = mode.describe();
        assert!(!text.is_empty());
        // The copy must say what happens to the user's mail, not name a mode.
        assert!(text.contains("mail") || text.contains("Mail"));
    }
}

#[test]
fn a_sweep_takes_what_may_be_destroyed_and_nothing_else() {
    let day = 86_400_000;
    let now = 1_000 * day;
    let cutoff = petrel::retention::purge_cutoff(now, 30);
    assert_eq!(cutoff, 970 * day);
    for deleted in [0, cutoff - 1, cutoff, cutoff + 1, now, now + 1] {
        assert_eq!(
            deleted <= cutoff,
            petrel::retention::is_purgeable(deleted, now, 30)
        );
    }
    assert_eq!(petrel::retention::purge_cutoff(i64::MIN, 1), i64::MIN);
}
