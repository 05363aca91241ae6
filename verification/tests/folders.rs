use petrel::actions::PriorState;
use petrel::store::error::StoreError;
use petrel::store::folders::{
    absent, adopted, has_expired, leaf_name, named_folder, remap, renamed_folders, repoint,
    repointed_path, role_after, stale_folders, subtree, FolderPath, FolderRow, Listed, Placed,
};
use petrel::store::like::like_escape;
use std::collections::HashSet;

fn path(id: i64, path: &str) -> FolderPath {
    FolderPath {
        id,
        path: path.into(),
    }
}

fn row(id: i64, path: &str, role: &str, local: bool) -> FolderRow {
    FolderRow {
        id,
        path: path.into(),
        role: role.into(),
        local,
    }
}

#[test]
fn a_folder_is_called_by_its_last_part() {
    assert_eq!(leaf_name("Contracts/2026", false), "2026");
    assert_eq!(leaf_name("INBOX.Work", false), "INBOX.Work");
    assert_eq!(leaf_name("INBOX.Work", true), "Work");
    assert_eq!(leaf_name("plain", true), "plain");
    assert_eq!(leaf_name("a/", true), "");
}

#[test]
fn a_folder_needs_a_name() {
    let f = named_folder("  Contracts/2026 ").unwrap();
    assert_eq!(f.path, "Contracts/2026");
    assert_eq!(f.name, "2026");
    let e = named_folder(" \t").unwrap_err();
    assert_eq!(e, StoreError::Rejected("a folder needs a name".into()));
    assert_eq!(e.to_text(), "a folder needs a name");
}

#[test]
fn a_rename_follows_the_folder_and_what_is_under_it() {
    let moved = |p: &str| repointed_path(p, "Work", "Old/Work");
    assert_eq!(moved("Work").as_deref(), Some("Old/Work"));
    assert_eq!(moved("Work/a").as_deref(), Some("Old/Work/a"));
    assert_eq!(moved("Work.a.b").as_deref(), Some("Old/Work.a.b"));
    assert_eq!(moved("Workshop"), None);
    assert_eq!(moved("work"), None);
    // And back again.
    for p in ["Work", "Work/a", "Work.a.b"] {
        let there = moved(p).unwrap();
        assert_eq!(repointed_path(&there, "Old/Work", "Work").as_deref(), Some(p));
    }
}

#[test]
fn the_queue_is_renamed_with_the_folder() {
    let prior = |p: Option<&str>| PriorState {
        message_id: 1,
        flags: 0,
        folder_ids: vec![],
        tag_ids: vec![],
        source_path: p.map(str::to_string),
        source_uid: None,
        source_folder: None,
        snoozed_until: None,
    };
    let mut all = vec![prior(Some("a/x")), prior(None), prior(Some("b"))];
    assert!(repoint(&mut all, "a", "c"));
    assert_eq!(all[0].source_path.as_deref(), Some("c/x"));
    assert_eq!(all[1].source_path, None);
    assert_eq!(all[2].source_path.as_deref(), Some("b"));
    assert!(!repoint(&mut all, "a", "c"));
}

#[test]
fn a_name_is_not_a_pattern() {
    // An underscore stands for itself: `axb/child` is another folder's.
    let all = vec![path(1, "a_b"), path(2, "a_b/child"), path(3, "axb/child"), path(4, "A_B.x")];
    let out = renamed_folders(&all, 1, "a_b", "Trash/a_b");
    assert_eq!(
        out,
        vec![path(1, "Trash/a_b"), path(2, "Trash/a_b/child"), path(4, "Trash/a_b.x")]
    );
    assert_eq!(subtree(&all, 1, "a_b"), vec![path(1, "a_b"), path(2, "a_b/child"), path(4, "A_B.x")]);
    assert_eq!(like_escape("50%_\\"), "50\\%\\_\\\\");
}

#[test]
fn a_plain_archive_is_the_archive() {
    let all = vec![row(1, "INBOX", "inbox", false), row(2, "archive", "", false)];
    assert_eq!(adopted(&all, "archive", "Archive"), vec![2]);
    assert!(adopted(&all, "trash", "Trash").is_empty());
    let marked = vec![row(1, "Old", "archive", false), row(2, "Archive", "", false)];
    assert!(adopted(&marked, "archive", "Archive").is_empty());
    assert_eq!(role_after("archive", None), "archive");
    assert_eq!(role_after("archive", Some("sent")), "sent");
}

#[test]
fn a_survey_prunes_strangers_only() {
    let all = vec![
        row(1, "INBOX", "inbox", false),
        row(2, "Gone", "", false),
        row(3, "Imported", "", true),
        row(4, "Archive", "archive", false),
        row(5, "Here", "", false),
    ];
    assert_eq!(stale_folders(&all, &vec!["Here".to_string()]), vec![2]);
}

#[test]
fn a_renumbered_folder_is_mended_by_message_id() {
    let here = vec![
        Placed {
            message_id: 1,
            key: Some("a".into()),
        },
        Placed {
            message_id: 2,
            key: Some("b".into()),
        },
        Placed {
            message_id: 3,
            key: None,
        },
    ];
    let listed = |uid: u32, id: Option<&str>| Listed {
        uid,
        message_id: id.map(str::to_string),
    };
    let server = vec![
        listed(10, Some("b")),
        listed(11, None),
        listed(12, Some("z")),
        listed(13, Some("b")),
    ];
    let part = remap(&here, &server, false);
    assert_eq!(part.uids, vec![None, Some(13), None]);
    assert_eq!(part.outcome.rematched, 2);
    assert_eq!(part.outcome.to_fetch, vec![11, 12]);
    // A listing that stopped short proves nothing about the rest.
    assert_eq!(part.outcome.dropped, 0);
    assert_eq!(remap(&here, &server, true).outcome.dropped, 2);
}

#[test]
fn what_the_server_stopped_naming_goes() {
    let present: HashSet<u32> = [1, 3].into_iter().collect();
    assert_eq!(absent(&vec![1, 2, 3, 4], &present), vec![2, 4]);
    assert!(absent(&vec![], &present).is_empty());
}

#[test]
fn a_bin_never_empties_what_it_was_not_watching() {
    let day = 86_400_000;
    assert!(has_expired(Some(0), 30, 30 * day));
    assert!(!has_expired(Some(1), 30, 30 * day));
    assert!(!has_expired(None, 0, i64::MAX));
}
