use petrel::store::sync_state::{
    backfill_floor, folder_modseq, folder_uidnext, is_local, marked_local, with_backfill_floor,
    with_modseq, with_uidnext, without_modseq,
};

#[test]
fn nothing_written_down_is_nothing_known() {
    for state in [None, Some(""), Some("{}"), Some("not json"), Some("[1]"), Some("null")] {
        assert!(!is_local(state));
        assert_eq!(backfill_floor(state), None);
        assert_eq!(folder_uidnext(state), None);
        assert_eq!(folder_modseq(state), None);
    }
    assert!(!is_local(Some(r#"{"local":"yes"}"#)));
    assert_eq!(folder_modseq(Some(r#"{"modseq":-1}"#)), None);
}

#[test]
fn what_one_round_writes_another_does_not_disturb() {
    let a = marked_local(None).unwrap();
    assert_eq!(a, r#"{"local":true}"#);
    let b = with_uidnext(Some(&a), 41).unwrap();
    let c = with_modseq(Some(&b), 9_000_000_000).unwrap();
    let d = with_backfill_floor(Some(&c), 1).unwrap();
    assert!(is_local(Some(&d)));
    assert_eq!(folder_uidnext(Some(&d)), Some(41));
    assert_eq!(folder_modseq(Some(&d)), Some(9_000_000_000));
    assert_eq!(backfill_floor(Some(&d)), Some(1));
    let e = without_modseq(Some(&d));
    assert_eq!(folder_modseq(Some(&e)), None);
    assert_eq!(folder_uidnext(Some(&e)), Some(41));
    assert!(is_local(Some(&e)));
}

#[test]
fn what_else_is_there_is_kept() {
    let out = with_uidnext(Some(r#"{"other":{"a":[1,2]},"uidnext":3}"#), 5).unwrap();
    assert_eq!(out, r#"{"other":{"a":[1,2]},"uidnext":5}"#);
    assert_eq!(with_uidnext(Some("broken"), 5).unwrap(), r#"{"uidnext":5}"#);
    assert_eq!(with_uidnext(Some("null"), 5).unwrap(), r#"{"uidnext":5}"#);
    assert_eq!(without_modseq(Some("broken")), "{}");
}

#[test]
fn what_has_no_members_takes_none() {
    assert_eq!(marked_local(Some("[1]")), None);
    assert_eq!(with_modseq(Some("3"), 4), None);
    assert_eq!(without_modseq(Some("[1]")), "[1]");
}

#[test]
fn only_what_has_no_members_is_refused() {
    for taken in [None, Some(""), Some("{"), Some("null"), Some(" null "), Some("{}")] {
        assert_eq!(marked_local(taken).as_deref(), Some(r#"{"local":true}"#));
        assert_eq!(with_modseq(taken, 7).as_deref(), Some(r#"{"modseq":7}"#));
    }
    for refused in ["true", "3", "\"{}\"", "[]", "[null]", "1.5"] {
        assert_eq!(marked_local(Some(refused)), None);
        assert_eq!(with_uidnext(Some(refused), 7), None);
        assert_eq!(without_modseq(Some(refused)), refused);
    }
    assert_eq!(without_modseq(None), "{}");
    assert_eq!(without_modseq(Some("null")), "null");
    assert_eq!(without_modseq(Some(r#"{"modseq":1}"#)), "{}");
}

#[test]
fn members_of_every_kind_stay() {
    let text = r#"{"a":"e.g. \"x\"","b":[1,{"c":null}],"d":-3,"e":false,"f":0.5,"g":1e300}"#;
    let out = with_backfill_floor(Some(text), 12).unwrap();
    assert_eq!(
        out,
        r#"{"a":"e.g. \"x\"","b":[1,{"c":null}],"backfill_floor":12,"d":-3,"e":false,"f":0.5,"g":1e+300}"#
    );
    assert_eq!(backfill_floor(Some(&out)), Some(12));
    // A number that is not a whole one is no number here.
    assert_eq!(folder_modseq(Some(r#"{"modseq":5.0}"#)), None);
    assert_eq!(folder_modseq(Some(r#"{"modseq":18446744073709551615}"#)), Some(u64::MAX));
    assert_eq!(folder_modseq(Some(r#"{"modseq":18446744073709551616}"#)), None);
}

#[test]
fn what_goes_too_deep_cannot_be_read() {
    let deep = |n: usize| format!("{{\"a\":{}{}}}", "[".repeat(n), "]".repeat(n));
    let held = with_uidnext(Some(&deep(126)), 4).unwrap();
    assert_eq!(folder_uidnext(Some(&held)), Some(4));
    assert!(held.contains("[[["));
    assert_eq!(with_uidnext(Some(&deep(127)), 4).as_deref(), Some(r#"{"uidnext":4}"#));
}
