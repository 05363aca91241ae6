use petrel::store::listing::{
    conversation_sql, count_sql, count_value, cursor_anywhere_sql, cursor_sql, folder_counts_sql,
    is_per_message, is_unread, message_sql, mode_for, page_rows_sql, page_sql, rail_counts,
    recipients_of, threads_sql, Addressee, Badge, ChosenMode,
};
use petrel::store::paging::{page_of, sorts_after, PageRow};
use petrel::store::views::{CountMode, ListView, Sort, SortKey};

fn squeezed(sql: &str) -> String {
    sql.split_whitespace().collect::<Vec<_>>().join(" ")
}

fn by(key: SortKey, ascending: bool) -> Sort {
    Sort { key, ascending }
}

#[test]
fn a_page_by_date_is_walked_and_any_other_is_grouped() {
    assert_eq!(
        squeezed(&page_sql(3, "flags & 4 != 0", false, by(SortKey::Date, false))),
        "SELECT coalesce(thread_id, -id), date_ms FROM messages WHERE deleted_at_ms IS NULL AND \
         account_id = 3 AND flags & 4 != 0 ORDER BY date_ms DESC, coalesce(thread_id, -id) DESC"
    );
    assert_eq!(
        squeezed(&page_sql(-1, "1", true, by(SortKey::Date, true))),
        "SELECT n.k, n.d FROM ( SELECT -id AS k, max(date_ms) AS d FROM messages WHERE \
         deleted_at_ms IS NULL AND account_id = -1 AND 1 GROUP BY k ) n ORDER BY n.d ASC, n.k ASC"
    );
    let sender = squeezed(&page_sql(3, "1", false, by(SortKey::Sender, true)));
    assert!(sender.ends_with(
        "ORDER BY nullif(lower(coalesce(nullif(n.from_display,''), n.from_addr, '')), '') IS NULL, \
         lower(coalesce(nullif(n.from_display,''), n.from_addr, '')) ASC, n.d DESC"
    ));
    let subject = squeezed(&page_sql(3, "1", false, by(SortKey::Subject, false)));
    assert!(subject.starts_with("SELECT n.k, n.d, lower(coalesce(nullif(n.subject,''), '')) AS s"));
    assert!(subject.contains(" DESC, n.d DESC"));
}

#[test]
fn a_cursor_is_asked_of_the_view_and_then_of_the_account() {
    assert_eq!(
        squeezed(&cursor_sql(3, "x = ?3", false, SortKey::Subject, -8)),
        "SELECT lower(coalesce(nullif(subject,''), '')) FROM messages WHERE deleted_at_ms IS NULL \
         AND account_id = 3 AND coalesce(thread_id, -id) = -8 AND x = ?3 ORDER BY date_ms DESC \
         LIMIT 1"
    );
    assert_eq!(
        squeezed(&cursor_anywhere_sql(3, true, SortKey::Sender)),
        "SELECT lower(coalesce(nullif(from_display,''), from_addr, '')) FROM messages WHERE \
         deleted_at_ms IS NULL AND account_id = 3 AND -id = ?1 ORDER BY date_ms DESC LIMIT 1"
    );
}

#[test]
fn rows_are_asked_for_by_number() {
    let sql = squeezed(&page_rows_sql(3, "a", "b", false, &vec![5, -7]));
    assert!(sql.contains(
        "deleted_at_ms IS NULL AND account_id = 3 AND a AND coalesce(thread_id, -id) IN (5,-7)"
    ));
    assert!(sql.contains(
        "m.deleted_at_ms IS NULL AND m.account_id = 3 AND b AND coalesce(m.thread_id, -m.id) IN \
         (5,-7)"
    ));
    assert!(sql.ends_with("ORDER BY m.date_ms DESC LIMIT ?1 OFFSET ?2"));
    let sql = squeezed(&threads_sql(&vec![1]));
    assert!(sql.contains("FROM messages WHERE deleted_at_ms IS NULL AND coalesce(thread_id, -id) IN (1)"));
    assert!(sql.ends_with("GROUP BY coalesce(m.thread_id, -m.id)"));
    assert!(!sql.contains('{'));
}

#[test]
fn each_view_is_counted_its_own_way() {
    let inbox = squeezed(&count_sql(&ListView::Inbox, 3, false));
    assert!(inbox.starts_with("WITH ids AS MATERIALIZED (SELECT p.message_id FROM folders f"));
    assert!(inbox.contains("f.account_id = 3 AND f.role = 'inbox'"));
    assert!(inbox.contains("HAVING max(CASE WHEN m.flags & 1 = 0 THEN 1 ELSE 0 END) = 1"));
    let all = squeezed(&count_sql(&ListView::Inbox, 3, true));
    assert!(!all.contains("HAVING"));
    let drafts = ListView::Folder("drafts".into());
    assert!(squeezed(&count_sql(&drafts, 3, true)).contains("SELECT -m.id AS tid"));
    assert_eq!(count_value(&drafts).as_deref(), Some("drafts"));
    assert_eq!(count_value(&ListView::Folder("archive".into())), None);
    assert_eq!(count_value(&ListView::Tag("Urgent".into())).as_deref(), Some("Urgent"));
    assert_eq!(count_value(&ListView::Starred), None);
    assert!(count_sql(&ListView::Starred, 3, true).contains("INDEXED BY idx_messages_flagged"));
    assert!(count_sql(&ListView::Snoozed, 3, true).contains("INDEXED BY idx_messages_snoozed"));
    assert!(count_sql(&ListView::Outbox, 3, true).contains("INDEXED BY idx_messages_send_after"));
    assert!(count_sql(&ListView::UserFolder(9), 3, true).contains("WHERE folder_id = 9"));
    let tag = squeezed(&count_sql(&ListView::Tag("Urgent".into()), 3, false));
    assert!(tag.contains("account_id = 3 AND"));
    assert!(!tag.contains("Urgent"));
    assert!(!tag.contains('{'));
    assert!(is_per_message(&drafts));
    assert!(!is_per_message(&ListView::Inbox));
}

#[test]
fn the_rail_says_only_what_is_worth_saying() {
    let badge = |key: &str, n: i64| Badge {
        key: key.into(),
        n,
    };
    let out = rail_counts(vec![badge("inbox", 3), badge("spam", 0)], &vec![(8, 2), (9, 0)], 1);
    assert_eq!(out, vec![badge("inbox", 3), badge("folder:8", 2), badge("outbox:attention", 1)]);
    assert!(rail_counts(vec![], &vec![], 0).is_empty());
}

#[test]
fn a_mailbox_counts_what_somebody_chose_or_what_is_usual() {
    let modes = vec![ChosenMode {
        key: "inbox".into(),
        mode: CountMode::Off,
    }];
    assert_eq!(mode_for(&modes, "inbox"), CountMode::Off);
    assert_eq!(mode_for(&modes, "starred"), CountMode::Total);
    assert_eq!(folder_counts_sql(CountMode::Off), None);
    assert!(folder_counts_sql(CountMode::Unread).unwrap().contains("m.flags & 1 = 0"));
    assert!(!folder_counts_sql(CountMode::Total).unwrap().contains("m.flags"));
}

#[test]
fn a_conversation_is_read_whole_or_a_page_at_a_time() {
    let (all, turned) = conversation_sql(false, false);
    assert!(all.ends_with("ORDER BY date_ms ASC, id ASC"));
    assert!(!turned);
    let (newest, turned) = conversation_sql(true, false);
    assert!(newest.ends_with("ORDER BY date_ms DESC, id DESC LIMIT ?2"));
    assert!(turned);
    let (before, turned) = conversation_sql(false, true);
    assert!(squeezed(&before).ends_with(
        "AND (date_ms < ?2 OR (date_ms = ?2 AND id < ?3)) ORDER BY date_ms DESC, id DESC LIMIT ?4"
    ));
    assert!(turned);
    assert!(message_sql().ends_with("id = ?1 AND deleted_at_ms IS NULL"));
}

#[test]
fn a_reply_to_all_leaves_nobody_out() {
    let who = |role: &str, display: &str, addr: &str| Addressee {
        role: role.into(),
        display: display.into(),
        addr: addr.into(),
    };
    let r = recipients_of(&vec![
        who("cc", "Dana", "dana@x"),
        who("from", "Ann", "ann@x"),
        who("to", "Sam", "sam@x"),
        who("to", "Lee", "lee@x"),
    ]);
    assert_eq!(r.to, vec!["Sam", "Lee"]);
    assert_eq!(r.cc, vec!["Dana"]);
    assert_eq!(r.recipients, vec!["Sam", "Lee", "Dana"]);
    assert_eq!(r.recipient_addrs, vec!["sam@x", "lee@x", "dana@x"]);
    assert!(is_unread(4));
    assert!(!is_unread(5));
}

fn row(key: i64, date_ms: i64, value: &str) -> PageRow {
    PageRow {
        key,
        date_ms,
        value: value.into(),
    }
}

#[test]
fn a_conversation_is_on_one_page_only() {
    let rows = vec![
        row(1, 90, ""),
        row(2, 80, ""),
        row(1, 70, ""),
        row(3, 60, ""),
        row(2, 50, ""),
        row(4, 40, ""),
    ];
    let newest = by(SortKey::Date, false);
    let first = page_of(&rows, newest, 2, 0, None, None);
    assert_eq!(first, vec![1, 2]);
    assert_eq!(page_of(&rows, newest, 2, 2, None, None), vec![3, 4]);
    // After the last row shown, whether or not it is still there.
    assert_eq!(page_of(&rows, newest, 2, 0, Some((80, 2)), None), vec![3, 4]);
    assert_eq!(page_of(&rows, newest, 2, 0, Some((65, 9)), None), vec![3, 4]);
    assert!(page_of(&rows, newest, 2, 0, Some((10, 9)), None).is_empty());
}

#[test]
fn a_page_by_name_goes_on_where_its_cursor_would_have_been() {
    let rows = vec![row(1, 9, "ann"), row(2, 8, "bo"), row(3, 7, "cy"), row(4, 6, "")];
    let names = by(SortKey::Sender, true);
    assert_eq!(page_of(&rows, names, 5, 0, Some((9, 1)), Some("ann".into())), vec![2, 3, 4]);
    // The cursor has left the view.
    assert_eq!(page_of(&rows, names, 5, 0, Some((5, 99)), Some("bea".into())), vec![2, 3, 4]);
    assert!(page_of(&rows, names, 5, 0, Some((5, 99)), None).is_empty());
    assert!(sorts_after("", 0, "z", 0, true));
    assert!(sorts_after("", 0, "z", 0, false));
    assert!(sorts_after("b", 0, "a", 0, true));
    assert!(!sorts_after("b", 0, "a", 0, false));
    assert!(sorts_after("a", 1, "a", 2, true));
}
