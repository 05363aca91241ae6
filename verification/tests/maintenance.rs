use petrel::retention::RetentionMode;
use petrel::store::maintenance::{
    all_synthetic, message_sender, offered, patterns, remote_content_allowed, sender_key,
    server_absences, Acquaintance, HeldKey,
};
use petrel::store::saved_search::{kept_name, rewritten, SavedSearch};

fn held(id: i64, key: &str) -> HeldKey {
    HeldKey {
        id,
        key: key.into(),
    }
}

#[test]
fn a_mirror_follows_the_server_and_an_archive_does_not() {
    let all = vec![held(1, "a"), held(2, "b"), held(3, "")];
    let present = vec!["b".to_string()];
    assert_eq!(server_absences(RetentionMode::Mirror, &all, &present), vec![1, 3]);
    assert!(server_absences(RetentionMode::LocalArchive, &all, &present).is_empty());
    assert!(server_absences(RetentionMode::LocalArchive, &all, &vec![]).is_empty());
}

#[test]
fn one_real_message_keeps_the_store() {
    let demo = vec!["a@example.com".to_string(), "b@Shop.EXAMPLE".to_string()];
    assert!(all_synthetic(&demo));
    assert!(all_synthetic(&vec![]));
    let mut one = demo.clone();
    one.push("me@example.co".into());
    assert!(!all_synthetic(&one));
}

#[test]
fn a_sender_is_known_however_it_is_written() {
    assert_eq!(sender_key("  Ann@Example.COM "), "ann@example.com");
    assert_eq!(message_sender(Some(" Ann@Example.com")).as_deref(), Some("ann@example.com"));
    assert_eq!(message_sender(Some("  ")), None);
    assert_eq!(message_sender(None), None);
}

#[test]
fn content_elsewhere_loads_for_those_who_are_known() {
    let someone = Some("ann@example.com".to_string());
    assert!(!remote_content_allowed(&someone, false, false));
    assert!(remote_content_allowed(&someone, true, false));
    assert!(remote_content_allowed(&someone, false, true));
    assert!(!remote_content_allowed(&None, true, true));
}

#[test]
fn a_prefix_is_matched_where_people_begin() {
    let p = patterns(" An").unwrap();
    assert_eq!(p.starts, "an%");
    assert_eq!(p.word, "% an%");
    assert_eq!(p.at, "%@an%");
    assert!(patterns("  ").is_none());
}

#[test]
fn somebody_written_to_comes_before_any_newsletter() {
    let day = 86_400_000;
    let now = 1_000 * day;
    let know = |written_to: bool, seen: i64, days_ago: i64| Acquaintance {
        written_to,
        seen,
        last_ms: now - days_ago * day,
    };
    // A friend seen once, long ago; a newsletter; somebody lately; a list
    // that never stops.
    let all = vec![
        know(false, 5_000, 400),
        know(false, 3, 40),
        know(true, 1, 800),
        know(false, 1, 2),
        know(false, 30, 100),
    ];
    // Scores: 20, 13, -, 26, 20.
    assert_eq!(offered(&all, now), vec![2, 3, 4, 0, 1]);
}

#[test]
fn a_saved_search_keeps_what_was_typed() {
    let s = SavedSearch {
        id: 1,
        name: kept_name("  Bills "),
        query: "tag:old".into(),
        position: 0,
    };
    assert_eq!(s.name, "Bills");
    assert_eq!(rewritten(&s, None), None);
    assert_eq!(rewritten(&s, Some("tag:old".into())), None);
    assert_eq!(rewritten(&s, Some("tag:new".into())).as_deref(), Some("tag:new"));
}
